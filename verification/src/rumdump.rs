//! A disassembler that renders one machine word as a line of text
//! describing the instruction.

use vstd::prelude::*;
use vstd::string::StringExecFns;
use vstd::arithmetic::power2::pow2;
use vstd::arithmetic::power2::lemma2_to64;
use vstd::bits::lemma_u32_shr_is_div;
use vstd::bits::lemma_u32_shl_is_mul;
use vstd::bits::lemma_u32_pow2_no_overflow;
use vstd::bits::lemma_u32_low_bits_mask_is_mod;
use vstd::bits::low_bits_mask;
use crate::rumrun::Operation;
use crate::rumrun::operation_from;
use crate::rumrun::operation_of;
use crate::rumdis::opcode_of;
use crate::rumdis::reg_a_of;
use crate::rumdis::reg_b_of;
use crate::rumdis::reg_c_of;
use crate::rumdis::reg_load_of;
use crate::rumdis::load_value_of;

verus! {

type Umi = u32;

/// A bit field: its width and its least-significant-bit offset.
pub struct Field {
    pub width: u32,
    pub lsb: u32,
}

/// The low `bits` bits, all set.
fn mask(bits: u32) -> (r: u32)
    requires
        bits < 32,
    ensures
        r == low_bits_mask(bits as nat),
{
    proof {
        lemma_u32_pow2_no_overflow(bits as nat);
        lemma_u32_shl_is_mul(1, bits);
    }
    (1u32 << bits) - 1
}

/// Given a `field` and `instruction`, extract
/// that field from the instruction as a u32
pub fn get(field: &Field, instruction: Umi) -> (r: u32)
    requires
        field.width < 32,
        field.lsb < 32,
    ensures
        r == (instruction as nat / pow2(field.lsb as nat)) % pow2(field.width as nat),
{
    let m = mask(field.width);
    let shifted = instruction >> field.lsb;
    proof {
        lemma_u32_shr_is_div(instruction, field.lsb);
        lemma_u32_pow2_no_overflow(field.width as nat);
        assert(m == low_bits_mask(field.width as nat) as u32);
        lemma_u32_low_bits_mask_is_mod(shifted, field.width as nat);
        vstd::arithmetic::power2::lemma_pow2_pos(field.width as nat);
        assert(shifted & m == shifted % (pow2(field.width as nat) as u32));
    }
    shifted & m
}

/// The decimal digit characters of `n`, most significant first.
pub open spec fn dec_digits(n: nat) -> Seq<char>
    decreases n,
{
    if n < 10 {
        seq![digit_char(n)]
    } else {
        dec_digits(n / 10).push(digit_char(n % 10))
    }
}

/// The character of one decimal digit.
pub open spec fn digit_char(d: nat) -> char {
    if d == 0 {
        '0'
    } else if d == 1 {
        '1'
    } else if d == 2 {
        '2'
    } else if d == 3 {
        '3'
    } else if d == 4 {
        '4'
    } else if d == 5 {
        '5'
    } else if d == 6 {
        '6'
    } else if d == 7 {
        '7'
    } else if d == 8 {
        '8'
    } else {
        '9'
    }
}

/// Append the decimal rendering of `n`.
fn push_decimal(s: &mut String, n: u32)
    ensures
        final(s)@ == old(s)@ + dec_digits(n as nat),
    decreases n,
{
    if n >= 10 {
        proof {
            assert(n / 10 < n) by (nonlinear_arith)
                requires
                    n >= 10,
            ;
        }
        push_decimal(s, n / 10);
    }
    let ghost mid = s@;
    let d = n % 10;
    if d == 0 {
        s.append("0");
        proof {
            reveal_strlit("0");
            assert(s@ =~= mid + seq![digit_char((n % 10) as nat)]);
        }
    } else if d == 1 {
        s.append("1");
        proof {
            reveal_strlit("1");
            assert(s@ =~= mid + seq![digit_char((n % 10) as nat)]);
        }
    } else if d == 2 {
        s.append("2");
        proof {
            reveal_strlit("2");
            assert(s@ =~= mid + seq![digit_char((n % 10) as nat)]);
        }
    } else if d == 3 {
        s.append("3");
        proof {
            reveal_strlit("3");
            assert(s@ =~= mid + seq![digit_char((n % 10) as nat)]);
        }
    } else if d == 4 {
        s.append("4");
        proof {
            reveal_strlit("4");
            assert(s@ =~= mid + seq![digit_char((n % 10) as nat)]);
        }
    } else if d == 5 {
        s.append("5");
        proof {
            reveal_strlit("5");
            assert(s@ =~= mid + seq![digit_char((n % 10) as nat)]);
        }
    } else if d == 6 {
        s.append("6");
        proof {
            reveal_strlit("6");
            assert(s@ =~= mid + seq![digit_char((n % 10) as nat)]);
        }
    } else if d == 7 {
        s.append("7");
        proof {
            reveal_strlit("7");
            assert(s@ =~= mid + seq![digit_char((n % 10) as nat)]);
        }
    } else if d == 8 {
        s.append("8");
        proof {
            reveal_strlit("8");
            assert(s@ =~= mid + seq![digit_char((n % 10) as nat)]);
        }
    } else {
        s.append("9");
        proof {
            reveal_strlit("9");
            assert(s@ =~= mid + seq![digit_char((n % 10) as nat)]);
        }
    }
    proof {
        if n < 10 {
            assert(s@ =~= old(s)@ + dec_digits(n as nat));
        } else {
            assert(dec_digits(n as nat) == dec_digits(n as nat / 10).push(
                digit_char((n % 10) as nat),
            ));
            assert(s@ =~= old(s)@ + dec_digits(n as nat));
        }
    }
}

/// The text that describes the instruction in `inst`: the line the
/// disassembler prints for it.
pub open spec fn disasm_spec(inst: u32) -> Seq<char> {
    let a = dec_digits(reg_a_of(inst) as nat);
    let b = dec_digits(reg_b_of(inst) as nat);
    let c = dec_digits(reg_c_of(inst) as nat);
    match operation_of(opcode_of(inst)) {
        Some(Operation::ConditionalMove) => "if (r"@ + c + " != 0) then r"@ + a + " := r"@ + b,
        Some(Operation::LoadSegment) => "r"@ + a + " := $m[r"@ + b + "][r"@ + c + "]"@,
        Some(Operation::StoreSegment) => "$m[r"@ + a + "][r"@ + b + "] := r"@ + c,
        Some(Operation::Add) => "r"@ + a + " := (r"@ + b + " + r"@ + c + ") % 2^32"@,
        Some(Operation::Multiply) => "r"@ + a + " := (r"@ + b + " * r"@ + c + ") % 2^32"@,
        Some(Operation::Divide) => "r"@ + a + " := (r"@ + b + " / r"@ + c + ")"@,
        Some(Operation::Nand) => "r"@ + a + " := !(r"@ + b + " & r"@ + c + ")"@,
        Some(Operation::Halt) => "Halt."@,
        Some(Operation::MapSegment) => "r"@ + b
            + " loaded with the index of a free memory segment. New segment created at $m[r"@ + b
            + "] with length = r"@ + c + " words and value = 0."@,
        Some(Operation::UnmapSegment) => "Memory segment $m[r"@ + c + "] unmapped."@,
        Some(Operation::Output) => "Value in r"@ + c + " displayed on I/O device."@,
        Some(Operation::Input) => "Loading I/O input into r"@ + c + "."@,
        Some(Operation::LoadProgram) => "Segment $m[r"@ + b
            + "] copied into $m[0]. Program counter set to r"@ + c + "."@,
        Some(Operation::LoadValue) => "r"@ + dec_digits(reg_load_of(inst) as nat) + " := "@
            + dec_digits(load_value_of(inst) as nat),
        None => "Invalid instruction "@ + dec_digits(inst as nat),
    }
}

/// Disassemble one word into the line of text that describes it.
pub fn disassemble(inst: Umi) -> (r: String)
    ensures
        r@ == disasm_spec(inst),
{
    proof {
        lemma2_to64();
    }
    let a = get(&Field { width: 3, lsb: 6 }, inst);
    let b = get(&Field { width: 3, lsb: 3 }, inst);
    let c = get(&Field { width: 3, lsb: 0 }, inst);
    let rl = get(&Field { width: 3, lsb: 25 }, inst);
    let vl = get(&Field { width: 25, lsb: 0 }, inst);
    let opcode = get(&Field { width: 4, lsb: 28 }, inst);
    proof {
        assert(a == reg_a_of(inst));
        assert(b == reg_b_of(inst));
        assert(c == reg_c_of(inst));
        assert(rl == reg_load_of(inst));
        assert(vl == load_value_of(inst));
        assert(opcode == opcode_of(inst));
    }
    let mut s = String::new();
    match operation_from(opcode) {
        Some(Operation::ConditionalMove) => {
            s.append("if (r");
            push_decimal(&mut s, c);
            s.append(" != 0) then r");
            push_decimal(&mut s, a);
            s.append(" := r");
            push_decimal(&mut s, b);
        },
        Some(Operation::LoadSegment) => {
            s.append("r");
            push_decimal(&mut s, a);
            s.append(" := $m[r");
            push_decimal(&mut s, b);
            s.append("][r");
            push_decimal(&mut s, c);
            s.append("]");
        },
        Some(Operation::StoreSegment) => {
            s.append("$m[r");
            push_decimal(&mut s, a);
            s.append("][r");
            push_decimal(&mut s, b);
            s.append("] := r");
            push_decimal(&mut s, c);
        },
        Some(Operation::Add) => {
            s.append("r");
            push_decimal(&mut s, a);
            s.append(" := (r");
            push_decimal(&mut s, b);
            s.append(" + r");
            push_decimal(&mut s, c);
            s.append(") % 2^32");
        },
        Some(Operation::Multiply) => {
            s.append("r");
            push_decimal(&mut s, a);
            s.append(" := (r");
            push_decimal(&mut s, b);
            s.append(" * r");
            push_decimal(&mut s, c);
            s.append(") % 2^32");
        },
        Some(Operation::Divide) => {
            s.append("r");
            push_decimal(&mut s, a);
            s.append(" := (r");
            push_decimal(&mut s, b);
            s.append(" / r");
            push_decimal(&mut s, c);
            s.append(")");
        },
        Some(Operation::Nand) => {
            s.append("r");
            push_decimal(&mut s, a);
            s.append(" := !(r");
            push_decimal(&mut s, b);
            s.append(" & r");
            push_decimal(&mut s, c);
            s.append(")");
        },
        Some(Operation::Halt) => {
            s.append("Halt.");
        },
        Some(Operation::MapSegment) => {
            s.append("r");
            push_decimal(&mut s, b);
            s.append(
                " loaded with the index of a free memory segment. New segment created at $m[r",
            );
            push_decimal(&mut s, b);
            s.append("] with length = r");
            push_decimal(&mut s, c);
            s.append(" words and value = 0.");
        },
        Some(Operation::UnmapSegment) => {
            s.append("Memory segment $m[r");
            push_decimal(&mut s, c);
            s.append("] unmapped.");
        },
        Some(Operation::Output) => {
            s.append("Value in r");
            push_decimal(&mut s, c);
            s.append(" displayed on I/O device.");
        },
        Some(Operation::Input) => {
            s.append("Loading I/O input into r");
            push_decimal(&mut s, c);
            s.append(".");
        },
        Some(Operation::LoadProgram) => {
            s.append("Segment $m[r");
            push_decimal(&mut s, b);
            s.append("] copied into $m[0]. Program counter set to r");
            push_decimal(&mut s, c);
            s.append(".");
        },
        Some(Operation::LoadValue) => {
            s.append("r");
            push_decimal(&mut s, rl);
            s.append(" := ");
            push_decimal(&mut s, vl);
        },
        None => {
            s.append("Invalid instruction ");
            push_decimal(&mut s, inst);
        },
    }
    proof {
        assert(s@ =~= disasm_spec(inst));
    }
    s
}

} // verus!
