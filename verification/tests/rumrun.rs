use rum::rumrun::{step, step_input, Fault, Machine, Status, StepOutcome};

fn load_value(reg: u32, value: u32) -> u32 {
    13 << 28 | reg << 25 | value
}

fn output(c: u32) -> u32 {
    10 << 28 | c
}

fn input(c: u32) -> u32 {
    11 << 28 | c
}

fn halt() -> u32 {
    7 << 28
}

fn divide(a: u32, b: u32, c: u32) -> u32 {
    5 << 28 | a << 6 | b << 3 | c
}

fn nand(a: u32, b: u32, c: u32) -> u32 {
    6 << 28 | a << 6 | b << 3 | c
}

fn add(a: u32, b: u32, c: u32) -> u32 {
    3 << 28 | a << 6 | b << 3 | c
}

fn multiply(a: u32, b: u32, c: u32) -> u32 {
    4 << 28 | a << 6 | b << 3 | c
}

fn map_segment(b: u32, c: u32) -> u32 {
    8 << 28 | b << 3 | c
}

fn unmap_segment(c: u32) -> u32 {
    9 << 28 | c
}

fn store_segment(a: u32, b: u32, c: u32) -> u32 {
    2 << 28 | a << 6 | b << 3 | c
}

fn load_segment(a: u32, b: u32, c: u32) -> u32 {
    1 << 28 | a << 6 | b << 3 | c
}

fn load_program(b: u32, c: u32) -> u32 {
    12 << 28 | b << 3 | c
}

/// Drive the machine to completion, feeding it `input` and collecting
/// the emitted bytes.
fn run(program: Vec<u32>, mut input_bytes: Vec<u8>) -> (Vec<u8>, Status) {
    let mut machine = Machine::boot(program);
    let mut out: Vec<u8> = Vec::new();
    loop {
        match step(&mut machine) {
            StepOutcome::Proceed => {}
            StepOutcome::Output(byte) => out.push(byte),
            StepOutcome::NeedsInput => {
                let byte = if input_bytes.is_empty() {
                    None
                } else {
                    Some(input_bytes.remove(0))
                };
                step_input(&mut machine, byte);
            }
            StepOutcome::Halted => return (out, machine.status),
            StepOutcome::Faulted(_) => return (out, machine.status),
        }
    }
}

#[test]
fn outputs_then_halts() {
    // Two immediate loads, each followed by an output, then a halt:
    // the bytes 65 and 10 come out and the machine halts cleanly.
    let program = vec![load_value(0, 65), output(0), load_value(0, 10), output(0), halt()];
    let (out, status) = run(program, vec![]);
    assert_eq!(out, vec![65, 10]);
    assert_eq!(status, Status::Halted);
}

#[test]
fn divide_by_zero_faults() {
    // A lone division with divisor register 0 faults without output.
    let program = vec![divide(0, 0, 0)];
    let (out, status) = run(program, vec![]);
    assert_eq!(out, vec![]);
    assert_eq!(status, Status::Faulted(Fault::DivisionByZero));
}

#[test]
fn divide_by_zero_faults_nonzero_dividend() {
    let program = vec![load_value(1, 77), divide(0, 1, 2)];
    let (out, status) = run(program, vec![]);
    assert_eq!(out, vec![]);
    assert_eq!(status, Status::Faulted(Fault::DivisionByZero));
}

#[test]
fn store_out_of_bounds_faults() {
    // Map a segment of 10 words, then store at offset 15 of it.
    let program = vec![
        load_value(1, 10),
        map_segment(2, 1),
        load_value(3, 15),
        store_segment(2, 3, 0),
    ];
    let (out, status) = run(program, vec![]);
    assert_eq!(out, vec![]);
    assert_eq!(status, Status::Faulted(Fault::OutOfBoundsOffset));
}

#[test]
fn arithmetic_wraps() {
    // NAND of zeroes makes the all-ones word; adding it to itself and
    // squaring it wrap modulo 2^32.
    let program = vec![nand(0, 1, 2), add(3, 0, 0), multiply(4, 0, 0), halt()];
    let mut machine = Machine::boot(program);
    loop {
        match step(&mut machine) {
            StepOutcome::Halted => break,
            StepOutcome::Faulted(_) => panic!("unexpected fault"),
            _ => {}
        }
    }
    assert_eq!(machine.registers[0], 0xFFFF_FFFF);
    assert_eq!(machine.registers[3], 0xFFFF_FFFE);
    assert_eq!(machine.registers[4], 1);
}

#[test]
fn load_program_jumps_without_advancing() {
    // Reload segment 0 over itself and jump to index 4: the output at
    // indices 2 and 3 must not run.
    let program = vec![
        load_value(1, 4),
        load_program(0, 1),
        load_value(0, 65),
        output(0),
        halt(),
    ];
    let (out, status) = run(program, vec![]);
    assert_eq!(out, vec![]);
    assert_eq!(status, Status::Halted);
}

#[test]
fn map_store_load_round_trip() {
    // Map a segment, store a value into it, read it back, output it.
    let program = vec![
        load_value(1, 3),      // r1 := 3 (segment length)
        map_segment(2, 1),     // r2 := new segment id
        load_value(3, 2),      // r3 := 2 (offset)
        load_value(4, 88),     // r4 := 88 (value)
        store_segment(2, 3, 4),// m[r2][r3] := r4
        load_segment(5, 2, 3), // r5 := m[r2][r3]
        output(5),
        unmap_segment(2),
        halt(),
    ];
    let (out, status) = run(program, vec![]);
    assert_eq!(out, vec![88]);
    assert_eq!(status, Status::Halted);
}

#[test]
fn output_overflow_faults() {
    let program = vec![load_value(0, 300), output(0)];
    let (out, status) = run(program, vec![]);
    assert_eq!(out, vec![]);
    assert_eq!(status, Status::Faulted(Fault::OutputOverflow));
}

#[test]
fn invalid_opcode_faults() {
    let program = vec![0xF000_0000];
    let (out, status) = run(program, vec![]);
    assert_eq!(out, vec![]);
    assert_eq!(status, Status::Faulted(Fault::InvalidOpcode));
}

#[test]
fn unmapped_access_faults() {
    let program = vec![load_value(0, 5), load_segment(1, 0, 2)];
    let (_, status) = run(program, vec![]);
    assert_eq!(status, Status::Faulted(Fault::UnmappedSegmentAccess));
}

#[test]
fn unmap_zero_faults() {
    let program = vec![unmap_segment(0)];
    let (_, status) = run(program, vec![]);
    assert_eq!(status, Status::Faulted(Fault::UnmappedSegmentAccess));
}

#[test]
fn input_reads_byte() {
    let program = vec![input(0), halt()];
    let mut machine = Machine::boot(program);
    assert_eq!(step(&mut machine), StepOutcome::NeedsInput);
    step_input(&mut machine, Some(42));
    assert_eq!(machine.registers[0], 42);
}

#[test]
fn input_end_sets_all_ones() {
    // At end of input, the destination register takes all ones.
    let program = vec![input(0), halt()];
    let mut machine = Machine::boot(program);
    assert_eq!(step(&mut machine), StepOutcome::NeedsInput);
    step_input(&mut machine, None);
    assert_eq!(machine.registers[0], 0xFFFF_FFFF);
}

#[test]
fn running_off_the_end_halts() {
    let program = vec![load_value(0, 1)];
    let (out, status) = run(program, vec![]);
    assert_eq!(out, vec![]);
    assert_eq!(status, Status::Halted);
}
