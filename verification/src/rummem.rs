//! The machine's virtual, segmented memory.
//!
//! Identifiers name segments: identifier 0 always exists and holds the
//! running program. Freed identifiers are kept on a stack and reused in
//! last-freed-first order (the stack discipline of identifier reuse).

use vstd::prelude::*;

verus! {

type Segment = Vec<u32>;

/// A representation of the machine's virtual, segmented memory.
pub struct Memory {
    memory: Vec<Segment>,
    free_segments: Vec<usize>,
}

/// The largest number of segment slots: identifiers must fit in 32 bits.
pub open spec fn id_limit() -> int {
    0x1_0000_0000
}

impl Memory {
    /// The contents of every segment slot, freed slots included.
    pub closed spec fn segs(&self) -> Seq<Seq<u32>> {
        self.memory.deep_view()
    }

    /// The stack of freed identifiers, most recently freed last.
    pub closed spec fn free_list(&self) -> Seq<usize> {
        self.free_segments@
    }

    /// Well-formed memory: slot 0 exists and is never free, every freed
    /// identifier names a slot, no identifier is freed twice, and
    /// identifiers fit in 32 bits.
    pub open spec fn wf(&self) -> bool {
        &&& 1 <= self.segs().len() <= id_limit()
        &&& forall|i: int|
            0 <= i < self.free_list().len() ==> 1 <= #[trigger] self.free_list()[i]
                < self.segs().len()
        &&& forall|i: int, j: int|
            0 <= i < j < self.free_list().len() ==> self.free_list()[i] != self.free_list()[j]
    }

    /// An identifier is mapped when it names a slot that is not free.
    pub open spec fn mapped(&self, id: int) -> bool {
        0 <= id < self.segs().len() && !self.free_list().contains(id as usize)
    }

    /// The memory as a mapping from mapped identifiers to their words.
    pub open spec fn as_map(&self) -> Map<u32, Seq<u32>> {
        Map::new(|id: u32| self.mapped(id as int), |id: u32| self.segs()[id as int])
    }

    pub fn new() -> (r: Memory)
        ensures
            r.wf(),
            r.segs() == seq![Seq::<u32>::empty()],
            r.free_list() == Seq::<usize>::empty(),
    {
        let r = Memory { memory: vec![Vec::new()], free_segments: vec![] };
        proof {
            assert(r.segs() =~~= seq![Seq::<u32>::empty()]);
            assert(r.free_list() =~~= Seq::<usize>::empty());
        }
        r
    }

    pub fn len(&self) -> (r: usize)
        ensures
            r == self.segs().len(),
    {
        self.memory.len()
    }

    pub fn push(&mut self, value: Segment)
        requires
            old(self).segs().len() < id_limit(),
        ensures
            final(self).segs() == old(self).segs().push(value@),
            final(self).free_list() == old(self).free_list(),
            old(self).wf() ==> final(self).wf(),
    {
        self.memory.push(value);
        proof {
            assert(self.segs() =~~= old(self).segs().push(value@));
        }
    }

    pub fn get(&self, index: usize) -> (r: Option<&Segment>)
        ensures
            match r {
                Some(seg) => index < self.segs().len() && seg@ == self.segs()[index as int],
                None => index >= self.segs().len(),
            },
    {
        self.memory.get(index)
    }

    /// How many freed identifiers are waiting for reuse.
    pub fn free_count(&self) -> (r: usize)
        ensures
            r == self.free_list().len(),
    {
        self.free_segments.len()
    }

    /// The freed identifier at position `i` of the reuse stack.
    pub fn free_at(&self, i: usize) -> (r: usize)
        requires
            i < self.free_list().len(),
        ensures
            r == self.free_list()[i as int],
    {
        self.free_segments[i]
    }

    /// Whether `index` names a mapped segment.
    pub fn is_mapped(&self, index: u32) -> (r: bool)
        ensures
            r == self.mapped(index as int),
    {
        if (index as usize) < self.memory.len() {
            let mut i: usize = 0;
            while i < self.free_segments.len()
                invariant
                    i <= self.free_segments.len(),
                    (index as usize) < self.segs().len(),
                    forall|j: int| 0 <= j < i ==> self.free_list()[j] != index as usize,
                decreases self.free_segments.len() - i,
            {
                if self.free_segments[i] == index as usize {
                    return false;
                }
                i += 1;
            }
            true
        } else {
            false
        }
    }

    /// The word count of the mapped segment `index`.
    pub fn seg_len(&self, index: u32) -> (r: usize)
        requires
            self.mapped(index as int),
        ensures
            r == self.segs()[index as int].len(),
    {
        self.memory[index as usize].len()
    }
}

/// The all-zero contents of a newly mapped segment.
pub open spec fn zero_segment(length: int) -> Seq<u32> {
    Seq::new(length as nat, |i: int| 0u32)
}

/// Load a program into memory segment 0.
pub fn load_program(memory: &mut Memory, program: Vec<u32>)
    requires
        old(memory).wf(),
    ensures
        final(memory).wf(),
        final(memory).segs() == old(memory).segs().update(0, program@),
        final(memory).free_list() == old(memory).free_list(),
{
    memory.memory[0] = program;
    proof {
        assert(memory.segs() =~~= old(memory).segs().update(0, program@));
        assert(memory.segs().len() == old(memory).segs().len());
        assert(memory.free_list() == old(memory).free_list());
        assert(memory.wf());
    }
}

/// Get the length of the currently loaded program.
pub fn get_program_length(memory: &Memory) -> (r: usize)
    requires
        memory.wf(),
    ensures
        r == memory.segs()[0].len(),
{
    memory.memory[0].len()
}

/// Map a memory segment of `length` words, all zero, and return its
/// identifier: the most recently freed identifier if one is waiting,
/// otherwise a fresh one.
pub fn map(memory: &mut Memory, length: u32) -> (index: u32)
    requires
        old(memory).wf(),
        old(memory).free_list().len() > 0 || old(memory).segs().len() < id_limit(),
    ensures
        final(memory).wf(),
        index != 0,
        !old(memory).mapped(index as int),
        final(memory).mapped(index as int),
        index as int == if old(memory).free_list().len() > 0 {
            old(memory).free_list().last() as int
        } else {
            old(memory).segs().len() as int
        },
        final(memory).free_list() == if old(memory).free_list().len() > 0 {
            old(memory).free_list().drop_last()
        } else {
            old(memory).free_list()
        },
        final(memory).segs() == if old(memory).free_list().len() > 0 {
            old(memory).segs().update(index as int, zero_segment(length as int))
        } else {
            old(memory).segs().push(zero_segment(length as int))
        },
        final(memory).as_map() =~~= old(memory).as_map().insert(
            index,
            zero_segment(length as int),
        ),
{
    let segment: Vec<u32> = vec![0; length as usize];
    proof {
        assert(segment@ =~~= zero_segment(length as int));
    }
    match memory.free_segments.pop() {
        Some(index) => {
            memory.memory[index] = segment;
            proof {
                assert(memory.segs() =~~= old(memory).segs().update(
                    index as int,
                    zero_segment(length as int),
                ));
                lemma_drop_last_contains(old(memory).free_list(), memory.free_list());
                assert(!old(memory).mapped(index as int));
                assert(memory.as_map() =~~= old(memory).as_map().insert(
                    index as u32,
                    zero_segment(length as int),
                ));
            }
            index as u32
        },
        None => {
            let index = memory.memory.len();
            memory.memory.push(segment);
            proof {
                assert(memory.segs() =~~= old(memory).segs().push(zero_segment(length as int)));
                assert(memory.as_map() =~~= old(memory).as_map().insert(
                    index as u32,
                    zero_segment(length as int),
                ));
            }
            index as u32
        },
    }
}

/// After the last element of a duplicate-free sequence is dropped, an
/// element is still present exactly when it is present in the original
/// and is not that last element.
proof fn lemma_drop_last_contains(s: Seq<usize>, t: Seq<usize>)
    requires
        s.len() > 0,
        t == s.drop_last(),
        forall|i: int, j: int| 0 <= i < j < s.len() ==> s[i] != s[j],
    ensures
        forall|x: usize| #[trigger] t.contains(x) <==> s.contains(x) && x != s.last(),
{
    assert forall|x: usize| #[trigger] t.contains(x) implies s.contains(x) && x != s.last() by {
        let i = choose|i: int| 0 <= i < t.len() && t[i] == x;
        assert(s[i] == x);
    }
    assert forall|x: usize| s.contains(x) && x != s.last() implies t.contains(x) by {
        let i = choose|i: int| 0 <= i < s.len() && s[i] == x;
        assert(i < s.len() - 1);
        assert(t[i] == x);
    }
}

/// Unmap the mapped, non-zero segment `index`, making its identifier
/// eligible for reuse.
pub fn unmap(memory: &mut Memory, index: u32)
    requires
        old(memory).wf(),
        index != 0,
        old(memory).mapped(index as int),
    ensures
        final(memory).wf(),
        final(memory).segs() == old(memory).segs(),
        final(memory).free_list() == old(memory).free_list().push(index as usize),
        final(memory).as_map() =~~= old(memory).as_map().remove(index),
{
    memory.free_segments.push(index as usize);
    proof {
        lemma_push_contains(old(memory).free_list(), memory.free_list(), index as usize);
        assert(memory.as_map() =~~= old(memory).as_map().remove(index));
    }
}

/// After an element is pushed, a value is present exactly when it is
/// present in the original or is the pushed element.
proof fn lemma_push_contains(s: Seq<usize>, t: Seq<usize>, v: usize)
    requires
        t == s.push(v),
    ensures
        forall|x: usize| #[trigger] t.contains(x) <==> s.contains(x) || x == v,
{
    assert forall|x: usize| #[trigger] t.contains(x) implies s.contains(x) || x == v by {
        let i = choose|i: int| 0 <= i < t.len() && t[i] == x;
        if i < s.len() {
            assert(s[i] == x);
        }
    }
    assert forall|x: usize| s.contains(x) || x == v implies t.contains(x) by {
        if s.contains(x) {
            let i = choose|i: int| 0 <= i < s.len() && s[i] == x;
            assert(t[i] == x);
        } else {
            assert(t[s.len() as int] == v);
        }
    }
}

/// Allocating, freeing the returned identifier, then allocating again
/// returns the same identifier, never 0, and never one that is still
/// mapped elsewhere at the moment of reuse. The four memories are the
/// states before and after each step, related as `map` and `unmap`
/// leave them.
pub proof fn lemma_allocate_free_allocate(
    m0: Memory,
    m1: Memory,
    m2: Memory,
    id1: u32,
    id2: u32,
)
    requires
        m0.wf(),
        // the first allocation returned id1
        id1 as int == if m0.free_list().len() > 0 {
            m0.free_list().last() as int
        } else {
            m0.segs().len() as int
        },
        m1.free_list() == if m0.free_list().len() > 0 {
            m0.free_list().drop_last()
        } else {
            m0.free_list()
        },
        // freeing id1 put it on top of the reuse stack
        m2.segs() == m1.segs(),
        m2.free_list() == m1.free_list().push(id1 as usize),
        // the second allocation returned id2
        id2 as int == if m2.free_list().len() > 0 {
            m2.free_list().last() as int
        } else {
            m2.segs().len() as int
        },
    ensures
        id2 == id1,
        id2 != 0,
        !m2.mapped(id2 as int),
{
    assert(m2.free_list().last() == id1 as usize);
    assert(m2.free_list()[m2.free_list().len() - 1] == id2 as usize);
    assert(m2.free_list().contains(id2 as usize));
}

/// Load the word at `offset` of the mapped segment `segment_index`.
pub fn load(memory: &Memory, segment_index: u32, offset: u32) -> (r: u32)
    requires
        memory.wf(),
        memory.mapped(segment_index as int),
        offset < memory.segs()[segment_index as int].len(),
    ensures
        r == memory.segs()[segment_index as int][offset as int],
{
    memory.memory[segment_index as usize][offset as usize]
}

/// Store `value` at `offset` of the mapped segment `segment_index`.
pub fn store(memory: &mut Memory, value: u32, segment_index: u32, offset: u32)
    requires
        old(memory).wf(),
        old(memory).mapped(segment_index as int),
        offset < old(memory).segs()[segment_index as int].len(),
    ensures
        final(memory).wf(),
        final(memory).segs() == old(memory).segs().update(
            segment_index as int,
            old(memory).segs()[segment_index as int].update(offset as int, value),
        ),
        final(memory).free_list() == old(memory).free_list(),
{
    memory.memory[segment_index as usize][offset as usize] = value;
    proof {
        assert(memory.segs() =~~= old(memory).segs().update(
            segment_index as int,
            old(memory).segs()[segment_index as int].update(offset as int, value),
        ));
    }
}

} // verus!
