//! The execution engine: fetch, decode, dispatch, advance.
//!
//! A `Machine` owns the segmented memory, the eight registers, the program
//! counter and the run status. Each `step` performs exactly one transition
//! of the state machine described by `step_spec`; console input and output
//! stay outside, driven through `StepOutcome`.

use vstd::prelude::*;
use crate::rumdis;
use crate::rumdis::Instruction;
use crate::rumdis::decode;
use crate::rummem;
use crate::rummem::Memory;
use crate::rummem::zero_segment;
use crate::rummem::id_limit;

verus! {

/// A fatal error: the machine has no internal recovery, so the first
/// fault ends the run.
#[derive(Clone, Copy, Debug, PartialEq, Eq, Structural)]
pub enum Fault {
    /// The program file's byte count is not a multiple of four.
    MalformedFile,
    /// The decoded opcode lies outside the defined range.
    InvalidOpcode,
    /// A load, store, program load or free names an identifier that is
    /// not currently mapped, or a free names the program segment.
    UnmappedSegmentAccess,
    /// A load or store offset reaches past the addressed segment.
    OutOfBoundsOffset,
    /// A division instruction with a zero divisor register.
    DivisionByZero,
    /// An output instruction with a register value above 255.
    OutputOverflow,
    /// An allocation when no identifier remains available.
    SegmentSpaceExhausted,
}

/// Where the machine stands: still running, cleanly halted, or stopped by
/// a fatal fault.
#[derive(Clone, Copy, Debug, PartialEq, Eq, Structural)]
pub enum Status {
    Running,
    Halted,
    Faulted(Fault),
}

/// The fourteen defined operations, in opcode order starting at 0.
#[derive(Clone, Copy, Debug, PartialEq, Eq, Structural)]
pub enum Operation {
    ConditionalMove,
    LoadSegment,
    StoreSegment,
    Add,
    Multiply,
    Divide,
    Nand,
    Halt,
    MapSegment,
    UnmapSegment,
    Output,
    Input,
    LoadProgram,
    LoadValue,
}

/// What one step asks of the surrounding run loop.
#[derive(Clone, Copy, Debug, PartialEq, Eq, Structural)]
pub enum StepOutcome {
    /// An instruction was executed; nothing to do outside.
    Proceed,
    /// An instruction was executed and emits this byte on the output
    /// device.
    Output(u8),
    /// The current instruction reads the input device: feed a byte (or
    /// the end of input) to `step_input`.
    NeedsInput,
    /// The machine halted, by a halt instruction or by running off the
    /// end of the program.
    Halted,
    /// The machine stopped on a fatal fault.
    Faulted(Fault),
}

/// The mathematical state of the machine: the registers, the segment
/// slots and the stack of freed identifiers of the memory, the program
/// counter, and the status.
#[verifier::ext_equal]
pub struct State {
    pub regs: Seq<u32>,
    pub mem_segs: Seq<Seq<u32>>,
    pub mem_free: Seq<usize>,
    pub pc: nat,
    pub status: Status,
}

impl State {
    /// The currently executing program: segment 0.
    pub open spec fn prog(self) -> Seq<u32> {
        self.mem_segs[0]
    }

    /// Whether `id` names a mapped segment.
    pub open spec fn mapped(self, id: int) -> bool {
        0 <= id < self.mem_segs.len() && !self.mem_free.contains(id as usize)
    }

    /// The same state with the program counter moved past the current
    /// instruction.
    pub open spec fn advanced(self) -> State {
        State { pc: self.pc + 1, ..self }
    }

    /// The advanced state with register `i` holding `v`.
    pub open spec fn with_reg(self, i: int, v: u32) -> State {
        State { regs: self.regs.update(i, v), pc: self.pc + 1, ..self }
    }

    /// The state stopped by fault `f`.
    pub open spec fn faulted(self, f: Fault) -> State {
        State { status: Status::Faulted(f), ..self }
    }
}

/// The operation a decoded opcode names, if any.
pub open spec fn operation_of(opcode: u32) -> Option<Operation> {
    if opcode == 0 {
        Some(Operation::ConditionalMove)
    } else if opcode == 1 {
        Some(Operation::LoadSegment)
    } else if opcode == 2 {
        Some(Operation::StoreSegment)
    } else if opcode == 3 {
        Some(Operation::Add)
    } else if opcode == 4 {
        Some(Operation::Multiply)
    } else if opcode == 5 {
        Some(Operation::Divide)
    } else if opcode == 6 {
        Some(Operation::Nand)
    } else if opcode == 7 {
        Some(Operation::Halt)
    } else if opcode == 8 {
        Some(Operation::MapSegment)
    } else if opcode == 9 {
        Some(Operation::UnmapSegment)
    } else if opcode == 10 {
        Some(Operation::Output)
    } else if opcode == 11 {
        Some(Operation::Input)
    } else if opcode == 12 {
        Some(Operation::LoadProgram)
    } else if opcode == 13 {
        Some(Operation::LoadValue)
    } else {
        None
    }
}

/// Decode an opcode into its operation.
pub fn operation_from(opcode: u32) -> (r: Option<Operation>)
    ensures
        r == operation_of(opcode),
{
    match opcode {
        0 => Some(Operation::ConditionalMove),
        1 => Some(Operation::LoadSegment),
        2 => Some(Operation::StoreSegment),
        3 => Some(Operation::Add),
        4 => Some(Operation::Multiply),
        5 => Some(Operation::Divide),
        6 => Some(Operation::Nand),
        7 => Some(Operation::Halt),
        8 => Some(Operation::MapSegment),
        9 => Some(Operation::UnmapSegment),
        10 => Some(Operation::Output),
        11 => Some(Operation::Input),
        12 => Some(Operation::LoadProgram),
        13 => Some(Operation::LoadValue),
        _ => None,
    }
}

/// One transition of the running machine: fetch the word at the program
/// counter, decode it, and dispatch. This is the machine's specification;
/// `step` is proved to follow it exactly.
pub open spec fn step_spec(s: State) -> (State, StepOutcome) {
    if s.pc == s.prog().len() {
        // Running off the end of the program is an implicit halt.
        (State { status: Status::Halted, ..s }, StepOutcome::Halted)
    } else if s.pc > s.prog().len() {
        (s.faulted(Fault::OutOfBoundsOffset), StepOutcome::Faulted(Fault::OutOfBoundsOffset))
    } else {
        let i = decode(s.prog()[s.pc as int]);
        match operation_of(i.opcode) {
            Some(Operation::ConditionalMove) => (
                if s.regs[i.reg_c as int] != 0 {
                    s.with_reg(i.reg_a as int, s.regs[i.reg_b as int])
                } else {
                    s.advanced()
                },
                StepOutcome::Proceed,
            ),
            Some(Operation::LoadSegment) => {
                let id = s.regs[i.reg_b as int] as int;
                let off = s.regs[i.reg_c as int] as int;
                if !s.mapped(id) {
                    (
                        s.faulted(Fault::UnmappedSegmentAccess),
                        StepOutcome::Faulted(Fault::UnmappedSegmentAccess),
                    )
                } else if off >= s.mem_segs[id].len() {
                    (
                        s.faulted(Fault::OutOfBoundsOffset),
                        StepOutcome::Faulted(Fault::OutOfBoundsOffset),
                    )
                } else {
                    (s.with_reg(i.reg_a as int, s.mem_segs[id][off]), StepOutcome::Proceed)
                }
            },
            Some(Operation::StoreSegment) => {
                let id = s.regs[i.reg_a as int] as int;
                let off = s.regs[i.reg_b as int] as int;
                let value = s.regs[i.reg_c as int];
                if !s.mapped(id) {
                    (
                        s.faulted(Fault::UnmappedSegmentAccess),
                        StepOutcome::Faulted(Fault::UnmappedSegmentAccess),
                    )
                } else if off >= s.mem_segs[id].len() {
                    (
                        s.faulted(Fault::OutOfBoundsOffset),
                        StepOutcome::Faulted(Fault::OutOfBoundsOffset),
                    )
                } else {
                    (
                        State {
                            mem_segs: s.mem_segs.update(id, s.mem_segs[id].update(off, value)),
                            pc: s.pc + 1,
                            ..s
                        },
                        StepOutcome::Proceed,
                    )
                }
            },
            Some(Operation::Add) => (
                s.with_reg(
                    i.reg_a as int,
                    ((s.regs[i.reg_b as int] + s.regs[i.reg_c as int]) % 0x1_0000_0000) as u32,
                ),
                StepOutcome::Proceed,
            ),
            Some(Operation::Multiply) => (
                s.with_reg(
                    i.reg_a as int,
                    ((s.regs[i.reg_b as int] * s.regs[i.reg_c as int]) % 0x1_0000_0000) as u32,
                ),
                StepOutcome::Proceed,
            ),
            Some(Operation::Divide) => {
                if s.regs[i.reg_c as int] == 0 {
                    (
                        s.faulted(Fault::DivisionByZero),
                        StepOutcome::Faulted(Fault::DivisionByZero),
                    )
                } else {
                    (
                        s.with_reg(
                            i.reg_a as int,
                            s.regs[i.reg_b as int] / s.regs[i.reg_c as int],
                        ),
                        StepOutcome::Proceed,
                    )
                }
            },
            Some(Operation::Nand) => (
                s.with_reg(i.reg_a as int, !(s.regs[i.reg_b as int] & s.regs[i.reg_c as int])),
                StepOutcome::Proceed,
            ),
            Some(Operation::Halt) => (
                State { status: Status::Halted, ..s },
                StepOutcome::Halted,
            ),
            Some(Operation::MapSegment) => {
                if s.mem_free.len() == 0 && s.mem_segs.len() >= id_limit() {
                    (
                        s.faulted(Fault::SegmentSpaceExhausted),
                        StepOutcome::Faulted(Fault::SegmentSpaceExhausted),
                    )
                } else {
                    let length = s.regs[i.reg_c as int];
                    let id = if s.mem_free.len() > 0 {
                        s.mem_free.last() as int
                    } else {
                        s.mem_segs.len() as int
                    };
                    (
                        State {
                            regs: s.regs.update(i.reg_b as int, id as u32),
                            mem_segs: if s.mem_free.len() > 0 {
                                s.mem_segs.update(id, zero_segment(length as int))
                            } else {
                                s.mem_segs.push(zero_segment(length as int))
                            },
                            mem_free: if s.mem_free.len() > 0 {
                                s.mem_free.drop_last()
                            } else {
                                s.mem_free
                            },
                            pc: s.pc + 1,
                            status: s.status,
                        },
                        StepOutcome::Proceed,
                    )
                }
            },
            Some(Operation::UnmapSegment) => {
                let id = s.regs[i.reg_c as int] as int;
                if id == 0 || !s.mapped(id) {
                    (
                        s.faulted(Fault::UnmappedSegmentAccess),
                        StepOutcome::Faulted(Fault::UnmappedSegmentAccess),
                    )
                } else {
                    (
                        State { mem_free: s.mem_free.push(id as usize), pc: s.pc + 1, ..s },
                        StepOutcome::Proceed,
                    )
                }
            },
            Some(Operation::Output) => {
                let v = s.regs[i.reg_c as int];
                if v > 255 {
                    (
                        s.faulted(Fault::OutputOverflow),
                        StepOutcome::Faulted(Fault::OutputOverflow),
                    )
                } else {
                    (s.advanced(), StepOutcome::Output(v as u8))
                }
            },
            // The input byte arrives through `step_input`; the state waits.
            Some(Operation::Input) => (s, StepOutcome::NeedsInput),
            Some(Operation::LoadProgram) => {
                let id = s.regs[i.reg_b as int] as int;
                if !s.mapped(id) {
                    (
                        s.faulted(Fault::UnmappedSegmentAccess),
                        StepOutcome::Faulted(Fault::UnmappedSegmentAccess),
                    )
                } else {
                    (
                        State {
                            mem_segs: s.mem_segs.update(0, s.mem_segs[id]),
                            pc: s.regs[i.reg_c as int] as nat,
                            ..s
                        },
                        StepOutcome::Proceed,
                    )
                }
            },
            Some(Operation::LoadValue) => (
                s.with_reg(i.reg_load as int, i.load_value),
                StepOutcome::Proceed,
            ),
            None => (
                s.faulted(Fault::InvalidOpcode),
                StepOutcome::Faulted(Fault::InvalidOpcode),
            ),
        }
    }
}

/// The effect of delivering `byte` (or the end of input) to a machine
/// whose current instruction reads the input device: the destination
/// register takes the byte, or all ones at end of input.
pub open spec fn input_spec(s: State, byte: Option<u8>) -> State {
    let i = decode(s.prog()[s.pc as int]);
    match byte {
        Some(b) => s.with_reg(i.reg_c as int, b as u32),
        None => s.with_reg(i.reg_c as int, 0xFFFF_FFFF),
    }
}

/// Whether the running machine stands on an input instruction, as after
/// `step` has returned `StepOutcome::NeedsInput`.
pub open spec fn awaiting_input(s: State) -> bool {
    &&& s.status == Status::Running
    &&& s.pc < s.prog().len()
    &&& operation_of(decode(s.prog()[s.pc as int]).opcode) == Some(Operation::Input)
}

/// The machine: its segmented memory, its eight registers, the program
/// counter, and the run status.
pub struct Machine {
    pub memory: Memory,
    pub registers: Vec<u32>,
    pub program_counter: usize,
    pub status: Status,
}

impl View for Machine {
    type V = State;

    closed spec fn view(&self) -> State {
        State {
            regs: self.registers@,
            mem_segs: self.memory.segs(),
            mem_free: self.memory.free_list(),
            pc: self.program_counter as nat,
            status: self.status,
        }
    }
}

impl Machine {
    /// Well-formed machine: a well-formed memory, exactly eight
    /// registers, and every segment short enough for 32-bit offsets.
    pub open spec fn wf(&self) -> bool {
        &&& self.memory.wf()
        &&& self@.regs.len() == 8
        &&& forall|i: int|
            0 <= i < self@.mem_segs.len() ==> #[trigger] self@.mem_segs[i].len() <= u32::MAX
    }

    /// A machine ready to run `program`: the program in segment 0, all
    /// registers zero, the program counter at 0.
    pub fn boot(program: Vec<u32>) -> (m: Machine)
        requires
            program@.len() <= u32::MAX,
        ensures
            m.wf(),
            m@.regs =~= seq![0u32, 0u32, 0u32, 0u32, 0u32, 0u32, 0u32, 0u32],
            m@.mem_segs =~~= seq![program@],
            m@.mem_free =~= Seq::<usize>::empty(),
            m@.pc == 0,
            m@.status == Status::Running,
    {
        let mut memory = Memory::new();
        rummem::load_program(&mut memory, program);
        let m = Machine {
            memory,
            registers: vec![0u32; 8],
            program_counter: 0,
            status: Status::Running,
        };
        proof {
            assert(m@.regs =~= seq![0u32, 0u32, 0u32, 0u32, 0u32, 0u32, 0u32, 0u32]);
            assert(m@.mem_segs =~~= seq![program@]);
        }
        m
    }
}

/// Identifier 0 is mapped in every well-formed memory: the free stack
/// holds no identifier below 1.
proof fn lemma_zero_mapped(memory: &Memory)
    requires
        memory.wf(),
    ensures
        memory.mapped(0),
{
    if memory.free_list().contains(0usize) {
        let i = choose|i: int|
            0 <= i < memory.free_list().len() && memory.free_list()[i] == 0usize;
        assert(false);
    }
}

/// Perform one transition of the running machine, exactly as `step_spec`
/// describes it.
pub fn step(m: &mut Machine) -> (r: StepOutcome)
    requires
        old(m).wf(),
        old(m)@.status == Status::Running,
    ensures
        final(m).wf(),
        final(m)@ == step_spec(old(m)@).0,
        r == step_spec(old(m)@).1,
{
    let ghost s0 = m@;
    let program_length = rummem::get_program_length(&m.memory);
    let pc = m.program_counter;
    if pc == program_length {
        m.status = Status::Halted;
        proof {
            assert(m@ =~~= step_spec(s0).0);
        }
        return StepOutcome::Halted;
    }
    if pc > program_length {
        m.status = Status::Faulted(Fault::OutOfBoundsOffset);
        proof {
            assert(m@ =~~= step_spec(s0).0);
        }
        return StepOutcome::Faulted(Fault::OutOfBoundsOffset);
    }

    // Fetch and decode the word under the program counter.
    proof {
        lemma_zero_mapped(&m.memory);
    }
    let word = rummem::load(&m.memory, 0, pc as u32);
    let inst = rumdis::disassemble(&word);

    match operation_from(inst.opcode) {
        Some(Operation::ConditionalMove) => {
            if m.registers[inst.reg_c as usize] != 0 {
                let v = m.registers[inst.reg_b as usize];
                m.registers[inst.reg_a as usize] = v;
            }
            m.program_counter = pc + 1;
            proof {
                assert(m@ =~~= step_spec(s0).0);
            }
            StepOutcome::Proceed
        },
        Some(Operation::LoadSegment) => {
            let id = m.registers[inst.reg_b as usize];
            let off = m.registers[inst.reg_c as usize];
            if !m.memory.is_mapped(id) {
                m.status = Status::Faulted(Fault::UnmappedSegmentAccess);
                proof {
                    assert(m@ =~~= step_spec(s0).0);
                }
                return StepOutcome::Faulted(Fault::UnmappedSegmentAccess);
            }
            if off as usize >= m.memory.seg_len(id) {
                m.status = Status::Faulted(Fault::OutOfBoundsOffset);
                proof {
                    assert(m@ =~~= step_spec(s0).0);
                }
                return StepOutcome::Faulted(Fault::OutOfBoundsOffset);
            }
            let v = rummem::load(&m.memory, id, off);
            m.registers[inst.reg_a as usize] = v;
            m.program_counter = pc + 1;
            proof {
                assert(m@ =~~= step_spec(s0).0);
            }
            StepOutcome::Proceed
        },
        Some(Operation::StoreSegment) => {
            let id = m.registers[inst.reg_a as usize];
            let off = m.registers[inst.reg_b as usize];
            let value = m.registers[inst.reg_c as usize];
            if !m.memory.is_mapped(id) {
                m.status = Status::Faulted(Fault::UnmappedSegmentAccess);
                proof {
                    assert(m@ =~~= step_spec(s0).0);
                }
                return StepOutcome::Faulted(Fault::UnmappedSegmentAccess);
            }
            if off as usize >= m.memory.seg_len(id) {
                m.status = Status::Faulted(Fault::OutOfBoundsOffset);
                proof {
                    assert(m@ =~~= step_spec(s0).0);
                }
                return StepOutcome::Faulted(Fault::OutOfBoundsOffset);
            }
            rummem::store(&mut m.memory, value, id, off);
            m.program_counter = pc + 1;
            proof {
                assert(m@ =~~= step_spec(s0).0);
            }
            StepOutcome::Proceed
        },
        Some(Operation::Add) => {
            let b = m.registers[inst.reg_b as usize];
            let c = m.registers[inst.reg_c as usize];
            let v = ((b as u64 + c as u64) % 0x1_0000_0000) as u32;
            m.registers[inst.reg_a as usize] = v;
            m.program_counter = pc + 1;
            proof {
                assert(m@ =~~= step_spec(s0).0);
            }
            StepOutcome::Proceed
        },
        Some(Operation::Multiply) => {
            let b = m.registers[inst.reg_b as usize];
            let c = m.registers[inst.reg_c as usize];
            proof {
                assert((b as u64) * (c as u64) <= 0xFFFF_FFFFu64 * 0xFFFF_FFFFu64)
                    by (nonlinear_arith)
                    requires
                        b <= 0xFFFF_FFFFu64 && c <= 0xFFFF_FFFFu64,
                ;
            }
            let v = ((b as u64 * c as u64) % 0x1_0000_0000) as u32;
            m.registers[inst.reg_a as usize] = v;
            m.program_counter = pc + 1;
            proof {
                assert(m@ =~~= step_spec(s0).0);
            }
            StepOutcome::Proceed
        },
        Some(Operation::Divide) => {
            let b = m.registers[inst.reg_b as usize];
            let c = m.registers[inst.reg_c as usize];
            if c == 0 {
                m.status = Status::Faulted(Fault::DivisionByZero);
                proof {
                    assert(m@ =~~= step_spec(s0).0);
                }
                return StepOutcome::Faulted(Fault::DivisionByZero);
            }
            m.registers[inst.reg_a as usize] = b / c;
            m.program_counter = pc + 1;
            proof {
                assert(m@ =~~= step_spec(s0).0);
            }
            StepOutcome::Proceed
        },
        Some(Operation::Nand) => {
            let b = m.registers[inst.reg_b as usize];
            let c = m.registers[inst.reg_c as usize];
            m.registers[inst.reg_a as usize] = !(b & c);
            m.program_counter = pc + 1;
            proof {
                assert(m@ =~~= step_spec(s0).0);
            }
            StepOutcome::Proceed
        },
        Some(Operation::Halt) => {
            m.status = Status::Halted;
            proof {
                assert(m@ =~~= step_spec(s0).0);
            }
            StepOutcome::Halted
        },
        Some(Operation::MapSegment) => {
            if m.memory.free_count() == 0 && m.memory.len() > u32::MAX as usize {
                m.status = Status::Faulted(Fault::SegmentSpaceExhausted);
                proof {
                    assert(m@ =~~= step_spec(s0).0);
                }
                return StepOutcome::Faulted(Fault::SegmentSpaceExhausted);
            }
            let length = m.registers[inst.reg_c as usize];
            let id = rummem::map(&mut m.memory, length);
            m.registers[inst.reg_b as usize] = id;
            m.program_counter = pc + 1;
            proof {
                assert(m@ =~~= step_spec(s0).0);
            }
            StepOutcome::Proceed
        },
        Some(Operation::UnmapSegment) => {
            let id = m.registers[inst.reg_c as usize];
            if id == 0 || !m.memory.is_mapped(id) {
                m.status = Status::Faulted(Fault::UnmappedSegmentAccess);
                proof {
                    assert(m@ =~~= step_spec(s0).0);
                }
                return StepOutcome::Faulted(Fault::UnmappedSegmentAccess);
            }
            rummem::unmap(&mut m.memory, id);
            m.program_counter = pc + 1;
            proof {
                assert(m@ =~~= step_spec(s0).0);
            }
            StepOutcome::Proceed
        },
        Some(Operation::Output) => {
            let v = m.registers[inst.reg_c as usize];
            if v > 255 {
                m.status = Status::Faulted(Fault::OutputOverflow);
                proof {
                    assert(m@ =~~= step_spec(s0).0);
                }
                return StepOutcome::Faulted(Fault::OutputOverflow);
            }
            m.program_counter = pc + 1;
            proof {
                assert(m@ =~~= step_spec(s0).0);
            }
            StepOutcome::Output(v as u8)
        },
        Some(Operation::Input) => {
            proof {
                assert(m@ =~~= step_spec(s0).0);
            }
            StepOutcome::NeedsInput
        },
        Some(Operation::LoadProgram) => {
            let id = m.registers[inst.reg_b as usize];
            if !m.memory.is_mapped(id) {
                m.status = Status::Faulted(Fault::UnmappedSegmentAccess);
                proof {
                    assert(m@ =~~= step_spec(s0).0);
                }
                return StepOutcome::Faulted(Fault::UnmappedSegmentAccess);
            }
            let program = match m.memory.get(id as usize) {
                Some(seg) => seg.clone(),
                None => Vec::new(),
            };
            proof {
                assert(program@ =~= s0.mem_segs[id as int]);
            }
            rummem::load_program(&mut m.memory, program);
            m.program_counter = m.registers[inst.reg_c as usize] as usize;
            proof {
                assert(m@ =~~= step_spec(s0).0);
            }
            StepOutcome::Proceed
        },
        Some(Operation::LoadValue) => {
            m.registers[inst.reg_load as usize] = inst.load_value;
            m.program_counter = pc + 1;
            proof {
                assert(m@ =~~= step_spec(s0).0);
            }
            StepOutcome::Proceed
        },
        None => {
            m.status = Status::Faulted(Fault::InvalidOpcode);
            proof {
                assert(m@ =~~= step_spec(s0).0);
            }
            StepOutcome::Faulted(Fault::InvalidOpcode)
        },
    }
}

/// Deliver `byte` (or the end of input, as `None`) to a machine whose
/// current instruction reads the input device.
pub fn step_input(m: &mut Machine, byte: Option<u8>)
    requires
        old(m).wf(),
        awaiting_input(old(m)@),
    ensures
        final(m).wf(),
        final(m)@ == input_spec(old(m)@, byte),
{
    let pc = m.program_counter;
    proof {
        lemma_zero_mapped(&m.memory);
    }
    let word = rummem::load(&m.memory, 0, pc as u32);
    let inst = rumdis::disassemble(&word);
    let v: u32 = match byte {
        Some(b) => b as u32,
        None => 0xFFFF_FFFF,
    };
    m.registers[inst.reg_c as usize] = v;
    m.program_counter = pc + 1;
    proof {
        assert(m@ =~~= input_spec(old(m)@, byte));
    }
}

/// The instruction the running machine is about to execute.
pub open spec fn current(s: State) -> Instruction {
    decode(s.prog()[s.pc as int])
}

/// A running machine standing on an instruction word.
pub open spec fn fetchable(s: State) -> bool {
    s.status == Status::Running && s.pc < s.prog().len() && s.regs.len() == 8
}

/// Addition and multiplication wrap modulo 2^32: for every pair of
/// register values, the destination register takes the sum or product
/// reduced modulo 2^32, and the step never faults on overflow.
pub proof fn lemma_arithmetic_wraps(s: State)
    requires
        fetchable(s),
        current(s).opcode == 3 || current(s).opcode == 4,
    ensures
        step_spec(s).1 == StepOutcome::Proceed,
        current(s).opcode == 3 ==> step_spec(s).0.regs[current(s).reg_a as int] == (s.regs[current(
            s,
        ).reg_b as int] + s.regs[current(s).reg_c as int]) % 0x1_0000_0000,
        current(s).opcode == 4 ==> step_spec(s).0.regs[current(s).reg_a as int] == (s.regs[current(
            s,
        ).reg_b as int] * s.regs[current(s).reg_c as int]) % 0x1_0000_0000,
{
    let i = current(s);
    if i.opcode == 4 {
        let b = s.regs[i.reg_b as int];
        let c = s.regs[i.reg_c as int];
        assert(0 <= b * c) by (nonlinear_arith)
            requires
                b >= 0,
                c >= 0,
        ;
    }
}

/// Division by zero always faults, for every dividend value.
pub proof fn lemma_divide_by_zero_faults(s: State)
    requires
        fetchable(s),
        current(s).opcode == 5,
        s.regs[current(s).reg_c as int] == 0,
    ensures
        step_spec(s) == (s.faulted(Fault::DivisionByZero), StepOutcome::Faulted(
            Fault::DivisionByZero,
        )),
{
}

/// Loading a program from a mapped segment copies that segment over the
/// program segment and resumes at exactly the word index in register C:
/// the program counter is not advanced past it.
pub proof fn lemma_load_program_jumps(s: State)
    requires
        fetchable(s),
        current(s).opcode == 12,
        s.mapped(s.regs[current(s).reg_b as int] as int),
    ensures
        step_spec(s).1 == StepOutcome::Proceed,
        step_spec(s).0.status == Status::Running,
        step_spec(s).0.pc == s.regs[current(s).reg_c as int],
        step_spec(s).0.prog() == s.mem_segs[s.regs[current(s).reg_b as int] as int],
        step_spec(s).0.regs == s.regs,
{
}

/// A newly mapped segment takes a fresh, never-zero identifier: one that
/// was not mapped before the step and is mapped after it, with the
/// requested number of words, all zero.
pub proof fn lemma_map_returns_fresh(s: State)
    requires
        fetchable(s),
        current(s).opcode == 8,
        1 <= s.mem_segs.len() <= id_limit(),
        s.mem_free.len() > 0 || s.mem_segs.len() < id_limit(),
        // freed identifiers name non-program slots, each once
        forall|i: int|
            0 <= i < s.mem_free.len() ==> 1 <= #[trigger] s.mem_free[i] < s.mem_segs.len(),
        forall|i: int, j: int| 0 <= i < j < s.mem_free.len() ==> s.mem_free[i] != s.mem_free[j],
    ensures
        step_spec(s).1 == StepOutcome::Proceed,
        ({
            let id = step_spec(s).0.regs[current(s).reg_b as int] as int;
            &&& id != 0
            &&& !s.mapped(id)
            &&& step_spec(s).0.mapped(id)
            &&& step_spec(s).0.mem_segs[id] == zero_segment(
                s.regs[current(s).reg_c as int] as int,
            )
        }),
{
    let i = current(s);
    let id = if s.mem_free.len() > 0 {
        s.mem_free.last() as int
    } else {
        s.mem_segs.len() as int
    };
    let s1 = step_spec(s).0;
    assert(0 <= id < id_limit());
    assert(s1.regs[i.reg_b as int] == id as u32);
    assert(id as u32 as int == id);
    if s.mem_free.len() > 0 {
        assert(s.mem_free[s.mem_free.len() - 1] == id as usize);
        assert(s.mem_free.contains(id as usize));
        assert(!s.mapped(id));
        if s1.mem_free.contains(id as usize) {
            let k = choose|k: int| 0 <= k < s1.mem_free.len() && s1.mem_free[k] == id as usize;
            assert(s.mem_free[k] == id as usize);
            assert(s.mem_free[s.mem_free.len() - 1] == id as usize);
        }
        assert(!s1.mem_free.contains(id as usize));
        assert(s1.mapped(id));
    } else {
        if s.mem_free.contains(id as usize) {
            let k = choose|k: int| 0 <= k < s.mem_free.len() && s.mem_free[k] == id as usize;
        }
        assert(!s.mapped(id));
        assert(s1.mapped(id));
    }
    assert(s1.mem_segs[id] == zero_segment(s.regs[i.reg_c as int] as int));
}

/// Freeing the program segment, identifier 0, always faults.
pub proof fn lemma_unmap_zero_faults(s: State)
    requires
        fetchable(s),
        current(s).opcode == 9,
        s.regs[current(s).reg_c as int] == 0,
    ensures
        step_spec(s) == (s.faulted(Fault::UnmappedSegmentAccess), StepOutcome::Faulted(
            Fault::UnmappedSegmentAccess,
        )),
{
}

} // verus!
