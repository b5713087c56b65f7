//! The instructions of the virtual machine: their encoding and what they compute.
//!
//! An instruction takes 20 bytes: the opcode (1), the kinds of the two source operands (one
//! nibble each), three register indices packed into 16 bits (2), and two literals (8 each).

use crate::bytes::{read_word, u64_from_le};
use crate::word::{isqrt, mul_high, reverse_bits, rotate_left, rotate_right};
use crate::{bytes, word};
use vstd::prelude::*;

verus! {

/// The size of an encoded instruction, in bytes.
pub const INSTR_SIZE: usize = 20;

/// The number of registers.
pub const NB_REGS: usize = 32;

/// What an instruction does: an operation on two sources, or on one.
#[derive(Clone, Copy, Debug, PartialEq, Eq, Structural)]
pub enum Instr {
    Op3(Op3),
    Op2(Op2),
}

/// An operation with two sources and a destination.
#[derive(Clone, Copy, Debug, PartialEq, Eq, Structural)]
pub enum Op3 {
    Add,
    Mul,
    MulH,
    Xor,
    Div,
    Mod,
    And,
    RotL,
    RotR,
    Hash(u8),
}

/// An operation with one source and a destination.
#[derive(Clone, Copy, Debug, PartialEq, Eq, Structural)]
pub enum Op2 {
    ISqrt,
    Neg,
    BitRev,
}

/// Where a source operand comes from.
#[derive(Clone, Copy, Debug, PartialEq, Eq, Structural)]
pub enum Operand {
    Reg,
    Memory,
    Literal,
    Special1,
    Special2,
}

/// A decoded instruction.
#[derive(Clone, Copy, Debug, PartialEq, Eq, Structural)]
pub struct Instruction {
    pub opcode: Instr,
    pub op1: Operand,
    pub op2: Operand,
    pub r1: u8,
    pub r2: u8,
    pub r3: u8,
    pub lit1: u64,
    pub lit2: u64,
}

/// The operation that an opcode byte stands for.
pub open spec fn instr_of(value: u8) -> Instr {
    if value < 40 {
        Instr::Op3(Op3::Add)
    } else if value < 80 {
        Instr::Op3(Op3::Mul)
    } else if value < 96 {
        Instr::Op3(Op3::MulH)
    } else if value < 112 {
        Instr::Op3(Op3::Div)
    } else if value < 128 {
        Instr::Op3(Op3::Mod)
    } else if value < 138 {
        Instr::Op2(Op2::ISqrt)
    } else if value < 148 {
        Instr::Op2(Op2::BitRev)
    } else if value < 188 {
        Instr::Op3(Op3::Xor)
    } else if value < 204 {
        Instr::Op3(Op3::RotL)
    } else if value < 220 {
        Instr::Op3(Op3::RotR)
    } else if value < 240 {
        Instr::Op2(Op2::Neg)
    } else if value < 248 {
        Instr::Op3(Op3::And)
    } else {
        Instr::Op3(Op3::Hash((value - 248) as u8))
    }
}

/// The kind of operand that a nibble stands for.
pub open spec fn operand_of(nibble: int) -> Operand {
    if nibble < 4 {
        Operand::Reg
    } else if nibble < 8 {
        Operand::Memory
    } else if nibble < 12 {
        Operand::Literal
    } else if nibble < 14 {
        Operand::Special1
    } else {
        Operand::Special2
    }
}

/// The instruction that 20 bytes encode.
pub open spec fn decoded(code: Seq<u8>) -> Instruction {
    let packed = 256 * code[2] + code[3];
    Instruction {
        opcode: instr_of(code[0]),
        op1: operand_of(code[1] as int / 16),
        op2: operand_of(code[1] as int % 16),
        r1: ((packed / 1024) % 32) as u8,
        r2: ((packed / 32) % 32) as u8,
        r3: (packed % 32) as u8,
        lit1: bytes::le_value(code.subrange(4, 12)) as u64,
        lit2: bytes::le_value(code.subrange(12, 20)) as u64,
    }
}

/// How many times an instruction reads the memory.
pub open spec fn memory_reads(instruction: Instruction) -> nat {
    let first = if instruction.op1 == Operand::Memory {
        1nat
    } else {
        0nat
    };
    match instruction.opcode {
        Instr::Op3(_) => first + if instruction.op2 == Operand::Memory {
            1nat
        } else {
            0nat
        },
        Instr::Op2(_) => first,
    }
}

impl From<u8> for Instr {
    fn from(value: u8) -> (instr: Instr) {
        match value {
            0..=39 => Instr::Op3(Op3::Add),
            40..=79 => Instr::Op3(Op3::Mul),
            80..=95 => Instr::Op3(Op3::MulH),
            96..=111 => Instr::Op3(Op3::Div),
            112..=127 => Instr::Op3(Op3::Mod),
            128..=137 => Instr::Op2(Op2::ISqrt),
            138..=147 => Instr::Op2(Op2::BitRev),
            148..=187 => Instr::Op3(Op3::Xor),
            188..=203 => Instr::Op3(Op3::RotL),
            204..=219 => Instr::Op3(Op3::RotR),
            220..=239 => Instr::Op2(Op2::Neg),
            240..=247 => Instr::Op3(Op3::And),
            248..=255 => Instr::Op3(Op3::Hash(value - 248)),
        }
    }
}

impl vstd::std_specs::convert::FromSpecImpl<u8> for Instr {
    open spec fn obeys_from_spec() -> bool {
        true
    }

    open spec fn from_spec(value: u8) -> Instr {
        instr_of(value)
    }
}

impl Operand {
    /// The kind of operand that a nibble stands for.
    pub fn from(value: u8) -> (operand: Operand)
        requires
            value <= 0x0f,
        ensures
            operand == operand_of(value as int),
    {
        match value {
            0..=3 => Operand::Reg,
            4..=7 => Operand::Memory,
            8..=11 => Operand::Literal,
            12..=13 => Operand::Special1,
            _ => Operand::Special2,
        }
    }
}

/// Decodes an instruction.
pub fn decode_instruction(instruction: &[u8; INSTR_SIZE]) -> (decoded_instruction: Instruction)
    ensures
        decoded_instruction == decoded(instruction@),
{
    let opcode = Instr::from(instruction[0]);
    let kinds: u8 = instruction[1];
    let op1 = Operand::from(kinds / 16);
    let op2 = Operand::from(kinds % 16);

    let rs: u16 = 256 * (instruction[2] as u16) + (instruction[3] as u16);
    let r1: u8 = ((rs / 1024) % 32) as u8;
    let r2: u8 = ((rs / 32) % 32) as u8;
    let r3: u8 = (rs % 32) as u8;

    let lit1: u64 = u64_from_le(&instruction[4..12]);
    let lit2: u64 = u64_from_le(&instruction[12..20]);

    Instruction { opcode, op1, op2, r1, r2, r3, lit1, lit2 }
}

/// The divisor of a division by `src2`, where `special1` stands in for a divisor of zero, and one
/// for a special value of zero.
pub open spec fn divisor_of(src2: u64, special1: u64) -> u64 {
    if src2 != 0 {
        src2
    } else if special1 != 0 {
        special1
    } else {
        1
    }
}

/// What an operation on two sources yields. `special1` is the first special value of the machine;
/// `digest` is the digest of the two sources.
pub open spec fn op3_result(
    operator: Op3,
    src1: u64,
    src2: u64,
    special1: u64,
    digest: Seq<u8>,
) -> u64 {
    match operator {
        Op3::Add => ((src1 + src2) % 0x1_0000_0000_0000_0000) as u64,
        Op3::Mul => ((src1 * src2) % 0x1_0000_0000_0000_0000) as u64,
        Op3::MulH => ((src1 * src2) / 0x1_0000_0000_0000_0000) as u64,
        Op3::Xor => src1 ^ src2,
        Op3::Div => (src1 / divisor_of(src2, special1)) as u64,
        Op3::Mod => (src1 % divisor_of(src2, special1)) as u64,
        Op3::And => src1 & src2,
        Op3::RotL => word::rotated_left(src1, src2 as int),
        Op3::RotR => word::rotated_right(src1, src2 as int),
        Op3::Hash(v) => bytes::word_at(digest, v as int),
    }
}

/// What an operation on one source yields.
pub open spec fn op2_result(operator: Op2, src1: u64) -> u64 {
    match operator {
        Op2::Neg => (0xffff_ffff_ffff_ffff - src1) as u64,
        Op2::ISqrt => word::isqrt_of(src1 as nat) as u64,
        Op2::BitRev => word::reversed(src1),
    }
}

/// The divisor of a division by `src2`.
pub fn nonzero_divisor(src2: u64, special1: u64) -> (divisor: u64)
    ensures
        divisor == divisor_of(src2, special1),
        divisor != 0,
{
    if src2 == 0 {
        if special1 == 0 {
            1
        } else {
            special1
        }
    } else {
        src2
    }
}

/// Performs an operation on two sources.
pub fn execute_op3(
    operator: Op3,
    src1: u64,
    src2: u64,
    special1: u64,
    digest: &[u8; 64],
) -> (result: u64)
    requires
        operator matches Op3::Hash(v) ==> v < 8,
    ensures
        result == op3_result(operator, src1, src2, special1, digest@),
{
    match operator {
        Op3::Add => src1.wrapping_add(src2),
        Op3::Mul => src1.wrapping_mul(src2),
        Op3::MulH => mul_high(src1, src2),
        Op3::Xor => src1 ^ src2,
        Op3::Div => src1 / nonzero_divisor(src2, special1),
        Op3::Mod => src1 % nonzero_divisor(src2, special1),
        Op3::And => src1 & src2,
        Op3::RotL => {
            proof {
                word::lemma_rotation_counts_modulo_64(src1, src2 as int);
            }
            rotate_left(src1, (src2 % 64) as u32)
        },
        Op3::RotR => {
            proof {
                word::lemma_rotation_counts_modulo_64(src1, src2 as int);
            }
            rotate_right(src1, (src2 % 64) as u32)
        },
        Op3::Hash(v) => read_word(digest, v as usize),
    }
}

/// Performs an operation on one source.
pub fn execute_op2(operator: Op2, src1: u64) -> (result: u64)
    ensures
        result == op2_result(operator, src1),
{
    match operator {
        Op2::Neg => {
            assert(!src1 == 0xffff_ffff_ffff_ffff - src1) by (bit_vector);
            !src1
        },
        Op2::ISqrt => isqrt(src1),
        Op2::BitRev => reverse_bits(src1),
    }
}

} // verus!
