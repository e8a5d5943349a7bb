//! An alternative segmented memory: a map from identifiers to segments,
//! with a randomized choice of reuse identifier. Freed identifiers
//! disappear from the map and a later allocation may pick any unused
//! one.

use vstd::prelude::*;
use std::collections::BTreeMap;
use crate::rummem::zero_segment;

verus! {

pub type Memory = BTreeMap<u32, Vec<u32>>;

/// Relies on rand::random: an arbitrary value; nothing is promised of
/// it, so every caller must cope with every outcome.
pub assume_specification<T>[ rand::random::<T> ]() -> (r: T)
    where
        rand::distributions::Standard: rand::distributions::Distribution<T>,
;

/// Load a program into memory segment 0.
pub fn load_program(memory: &mut Memory, program: Vec<u32>)
    ensures
        final(memory)@ == old(memory)@.insert(0u32, program),
{
    memory.insert(0, program);
}

/// Get the length of the currently loaded program.
pub fn get_program_length(memory: &Memory) -> (r: usize)
    requires
        memory@.contains_key(0u32),
    ensures
        r == memory@[0u32]@.len(),
{
    match memory.get(&0) {
        Some(program) => program.len(),
        None => unreached(),
    }
}

/// Map a memory segment of `length` words, all zero, under a currently
/// unused identifier, chosen as `choose_open_index` does.
pub fn map(memory: &mut Memory, length: u32) -> (index: u32)
    requires
        old(memory)@.contains_key(0u32),
        old(memory)@.dom().len() < 0x1_0000_0000,
    ensures
        index != 0,
        !old(memory)@.contains_key(index),
        final(memory)@.contains_key(index),
        final(memory)@[index]@ == zero_segment(length as int),
        final(memory)@.dom() =~= old(memory)@.dom().insert(index),
        forall|k: u32|
            k != index && old(memory)@.contains_key(k) ==> #[trigger] final(memory)@[k] == old(
                memory,
            )@[k],
{
    let mut segment: Vec<u32> = Vec::new();
    while segment.len() < length as usize
        invariant
            segment@.len() <= length,
            forall|i: int| 0 <= i < segment@.len() ==> #[trigger] segment@[i] == 0u32,
        decreases length - segment.len(),
    {
        segment.push(0);
    }
    proof {
        assert(segment@ =~= zero_segment(length as int));
    }
    let index = choose_open_index(memory);
    memory.insert(index, segment);
    index
}

/// Choose an identifier for mapping a new segment: a bounded number of
/// random draws, so that test programs cannot depend on the allocation
/// order, then the smallest unused identifier if none of the draws was
/// free.
fn choose_open_index(memory: &Memory) -> (index: u32)
    requires
        memory@.contains_key(0u32),
        memory@.dom().len() < 0x1_0000_0000,
    ensures
        !memory@.contains_key(index),
        index != 0,
{
    let mut index: u32 = 0;
    let mut tries: u8 = 0;
    while tries < 64
        invariant
            memory@.contains_key(0u32),
            tries <= 64,
        decreases 64 - tries,
    {
        if !memory.contains_key(&index) {
            return index;
        }
        index = rand::random();
        tries = tries + 1;
    }

    let mut candidate: u32 = 0;
    while memory.contains_key(&candidate)
        invariant
            memory@.contains_key(0u32),
            memory@.dom().len() < 0x1_0000_0000,
            forall|j: u32| j < candidate ==> memory@.dom().contains(j),
        decreases u32::MAX - candidate,
    {
        proof {
            broadcast use vstd::std_specs::btree::axiom_btree_map_view_finite_dom;

            lemma_full_prefix_needs_room(memory@.dom(), candidate);
        }
        candidate = candidate + 1;
    }
    candidate
}

/// A finite set of 32-bit identifiers that holds every identifier up to
/// `c` holds more than `c` of them.
proof fn lemma_full_prefix_needs_room(dom: Set<u32>, c: u32)
    requires
        dom.finite(),
        forall|j: u32| j <= c ==> dom.contains(j),
    ensures
        dom.len() >= c + 1,
    decreases c,
{
    if c == 0 {
        assert(dom.contains(0u32));
        assert(dom.remove(0u32).len() == dom.len() - 1);
    } else {
        assert(dom.contains(c));
        lemma_full_prefix_needs_room(dom.remove(c), (c - 1) as u32);
        assert(dom.remove(c).len() == dom.len() - 1);
    }
}

/// Unmap the mapped, non-program segment `index`, making its identifier
/// available again.
pub fn unmap(memory: &mut Memory, index: u32)
    requires
        index != 0,
        old(memory)@.contains_key(index),
    ensures
        final(memory)@ == old(memory)@.remove(index),
{
    memory.remove(&index);
}

/// Load a value from memory.
pub fn load(memory: &Memory, segment_index: u32, offset: u32) -> (r: u32)
    requires
        memory@.contains_key(segment_index),
        offset < memory@[segment_index]@.len(),
    ensures
        r == memory@[segment_index]@[offset as int],
{
    match memory.get(&segment_index) {
        Some(segment) => segment[offset as usize],
        None => unreached(),
    }
}

/// Store a value in memory.
pub fn store(memory: &mut Memory, value: u32, segment_index: u32, offset: u32)
    requires
        old(memory)@.contains_key(segment_index),
        offset < old(memory)@[segment_index]@.len(),
    ensures
        final(memory)@.dom() =~= old(memory)@.dom(),
        final(memory)@[segment_index]@ == old(memory)@[segment_index]@.update(
            offset as int,
            value,
        ),
        forall|k: u32|
            k != segment_index && old(memory)@.contains_key(k) ==> #[trigger] final(memory)@[k]
                == old(memory)@[k],
{
    let mut segment = match memory.remove(&segment_index) {
        Some(segment) => segment,
        None => unreached(),
    };
    segment[offset as usize] = value;
    memory.insert(segment_index, segment);
}

} // verus!
