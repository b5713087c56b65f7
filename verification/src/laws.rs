//! What holds of the library as a whole.
//!
//! Each function here proves one law. None of them says anything of the two primitives beyond
//! what [`crate::digest`] says. The modules below this one say what the single operations mean, on
//! bytes, bits and numbers: [`encoding`] of words and instructions, [`memory`] of the memory and
//! the program, and [`machine`] of the machine.

use crate::instruction::{Instr, Instruction, Op2, Op3, Operand};
use crate::rom::{Rom, RomGenerationType};
use crate::vm::State;
use crate::{bytes, digest, instruction, program, rom, vm, word};
use vstd::prelude::*;
use vstd::string::StringSliceAdditionalSpecFns;

pub mod encoding;
pub mod machine;
pub mod memory;

verus! {

/// How many of the opcode bytes below `n` stand for an operation of the kind `kind`.
pub open spec fn opcodes_below(kind: spec_fn(Instr) -> bool, n: nat) -> nat
    decreases n,
{
    if n == 0 {
        0
    } else {
        opcodes_below(kind, (n - 1) as nat) + if kind(
            instruction::instr_of((n - 1) as u8),
        ) {
            1nat
        } else {
            0nat
        }
    }
}

/// How many of the nibbles below `n` stand for an operand of the kind `kind`.
pub open spec fn nibbles_below(kind: Operand, n: nat) -> nat
    decreases n,
{
    if n == 0 {
        0
    } else {
        nibbles_below(kind, (n - 1) as nat) + if instruction::operand_of(n - 1) == kind {
            1nat
        } else {
            0nat
        }
    }
}

proof fn lemma_opcode_range(kind: spec_fn(Instr) -> bool, low: nat, high: nat, inside: bool)
    requires
        low <= high <= 256,
        forall|v: u8|
            low <= v < high ==> kind(#[trigger] instruction::instr_of(v)) == inside,
    ensures
        opcodes_below(kind, high) == opcodes_below(kind, low) + if inside {
            high - low
        } else {
            0
        },
    decreases high,
{
    if low < high {
        lemma_opcode_range(kind, low, (high - 1) as nat, inside);
        assert(kind(instruction::instr_of((high - 1) as u8)) == inside);
    }
}

/// The opcodes of one operation form one range of byte values.
proof fn lemma_opcode_share(kind: spec_fn(Instr) -> bool, low: nat, high: nat)
    requires
        low <= high <= 256,
        forall|v: u8|
            kind(#[trigger] instruction::instr_of(v)) == (low <= v < high),
    ensures
        opcodes_below(kind, 256) == high - low,
{
    lemma_opcode_range(kind, 0, low, false);
    lemma_opcode_range(kind, low, high, true);
    lemma_opcode_range(kind, high, 256, false);
}

/// Of the 256 opcodes, each operation has its share; the shares add up to 256.
pub proof fn law_opcode_shares()
    ensures
        opcodes_below(|i: Instr| i == Instr::Op3(Op3::Add), 256) == 40,
        opcodes_below(|i: Instr| i == Instr::Op3(Op3::Mul), 256) == 40,
        opcodes_below(|i: Instr| i == Instr::Op3(Op3::MulH), 256) == 16,
        opcodes_below(|i: Instr| i == Instr::Op3(Op3::Div), 256) == 16,
        opcodes_below(|i: Instr| i == Instr::Op3(Op3::Mod), 256) == 16,
        opcodes_below(|i: Instr| i == Instr::Op2(Op2::ISqrt), 256) == 10,
        opcodes_below(|i: Instr| i == Instr::Op2(Op2::BitRev), 256) == 10,
        opcodes_below(|i: Instr| i == Instr::Op3(Op3::Xor), 256) == 40,
        opcodes_below(|i: Instr| i == Instr::Op3(Op3::RotL), 256) == 16,
        opcodes_below(|i: Instr| i == Instr::Op3(Op3::RotR), 256) == 16,
        opcodes_below(|i: Instr| i == Instr::Op2(Op2::Neg), 256) == 20,
        opcodes_below(|i: Instr| i == Instr::Op3(Op3::And), 256) == 8,
        opcodes_below(|i: Instr| i matches Instr::Op3(Op3::Hash(_)), 256) == 8,
{
    lemma_opcode_share(|i: Instr| i == Instr::Op3(Op3::Add), 0, 40);
    lemma_opcode_share(|i: Instr| i == Instr::Op3(Op3::Mul), 40, 80);
    lemma_opcode_share(|i: Instr| i == Instr::Op3(Op3::MulH), 80, 96);
    lemma_opcode_share(|i: Instr| i == Instr::Op3(Op3::Div), 96, 112);
    lemma_opcode_share(|i: Instr| i == Instr::Op3(Op3::Mod), 112, 128);
    lemma_opcode_share(|i: Instr| i == Instr::Op2(Op2::ISqrt), 128, 138);
    lemma_opcode_share(|i: Instr| i == Instr::Op2(Op2::BitRev), 138, 148);
    lemma_opcode_share(|i: Instr| i == Instr::Op3(Op3::Xor), 148, 188);
    lemma_opcode_share(|i: Instr| i == Instr::Op3(Op3::RotL), 188, 204);
    lemma_opcode_share(|i: Instr| i == Instr::Op3(Op3::RotR), 204, 220);
    lemma_opcode_share(|i: Instr| i == Instr::Op2(Op2::Neg), 220, 240);
    lemma_opcode_share(|i: Instr| i == Instr::Op3(Op3::And), 240, 248);
    lemma_opcode_share(|i: Instr| i matches Instr::Op3(Op3::Hash(_)), 248, 256);
}

/// Of the 16 nibbles, registers, the memory and literals have four each, and each of the two
/// special values has two.
pub proof fn law_operand_shares()
    ensures
        nibbles_below(Operand::Reg, 16) == 4,
        nibbles_below(Operand::Memory, 16) == 4,
        nibbles_below(Operand::Literal, 16) == 4,
        nibbles_below(Operand::Special1, 16) == 2,
        nibbles_below(Operand::Special2, 16) == 2,
{
    reveal_with_fuel(nibbles_below, 17);
}

/// Whatever 20 bytes are decoded, the registers exist, and a hash operation selects one of the
/// eight words of a digest.
pub proof fn law_decoded_in_range(code: Seq<u8>)
    requires
        code.len() == 20,
    ensures
        instruction::decoded(code).r1 < 32,
        instruction::decoded(code).r2 < 32,
        instruction::decoded(code).r3 < 32,
        instruction::decoded(code).opcode matches Instr::Op3(Op3::Hash(v)) ==> v < 8,
{
}

/// An instruction index counts modulo the number of instructions, and always finds a whole
/// instruction.
pub proof fn law_instruction_index_wraps(program: Seq<u8>, i: nat, rounds: nat)
    requires
        program.len() >= 20,
    ensures
        program::instruction_at(program, i as int).len() == 20,
        program::instruction_at(program, (i + rounds * (program.len() / 20)) as int)
            == program::instruction_at(program, i as int),
{
    let n = program.len() as int / 20;
    vstd::arithmetic::div_mod::lemma_mod_multiples_vanish(rounds as int, i as int, n);
    vstd::arithmetic::mul::lemma_mul_is_commutative(rounds as int, n);
}

/// A line index counts modulo the number of lines, and always finds a whole line.
pub proof fn law_line_index_wraps(rom: Seq<u8>, i: nat, rounds: nat)
    requires
        rom.len() >= 64,
    ensures
        rom::rom_line(rom, i as int).len() == 64,
        rom::rom_line(rom, (i + rounds * (rom.len() / 64)) as int) == rom::rom_line(
            rom,
            i as int,
        ),
{
    let n = rom.len() as int / 64;
    vstd::arithmetic::div_mod::lemma_mod_multiples_vanish(rounds as int, i as int, n);
    vstd::arithmetic::mul::lemma_mul_is_commutative(rounds as int, n);
}

/// A division never divides by zero.
pub proof fn law_divisor_is_not_zero(src2: u64, special1: u64)
    ensures
        instruction::divisor_of(src2, special1) != 0,
        src2 != 0 ==> instruction::divisor_of(src2, special1) == src2,
{
}

/// A step writes no register but its destination, keeps the program, its seed and the loop
/// counter, moves the instruction pointer on by one, has the program digest take in the bytes of
/// the instruction, and counts every access to the memory, each of which has the memory digest
/// take in one line.
pub proof fn law_step_effects(s: State, rom: Seq<u8>)
    requires
        s.program.len() >= 20,
        s.regs.len() == 32,
        rom.len() >= 64,
    ensures
        ({
            let code = program::instruction_at(s.program, s.ip as int);
            let instruction = instruction::decoded(code);
            let after = vm::after_step(s, rom);
            let reads = instruction::memory_reads(instruction);
            &&& after.regs.len() == 32
            &&& forall|j: int|
                0 <= j < 32 && j != instruction.r3 ==> #[trigger] after.regs[j] == s.regs[j]
            &&& after.program == s.program
            &&& after.prog_seed == s.prog_seed
            &&& after.loop_counter == s.loop_counter
            &&& after.ip == (s.ip + 1) % 0x1_0000_0000
            &&& after.prog_digest == s.prog_digest + code
            &&& after.memory_counter == (s.memory_counter + reads) % 0x1_0000_0000
            &&& after.mem_digest.len() == s.mem_digest.len() + 64 * reads
            &&& s.mem_digest.is_prefix_of(after.mem_digest)
        }),
{
}

/// The accesses to the memory read the eight words of a line in turn, also where the counter of
/// accesses returns to zero.
pub proof fn law_memory_words_in_turn(memory_counter: u32)
    ensures
        vm::next_u32(memory_counter) as int % 8 == (memory_counter as int % 8 + 1) % 8,
{
}

/// `m + n` steps are `m` steps followed by `n` steps.
pub proof fn law_steps_compose(s: State, rom: Seq<u8>, m: nat, n: nat)
    ensures
        vm::after_steps(s, rom, m + n) == vm::after_steps(
            vm::after_steps(s, rom, m),
            rom,
            n,
        ),
    decreases n,
{
    if n > 0 {
        law_steps_compose(s, rom, m, (n - 1) as nat);
        assert((m + n - 1) as nat == m + (n - 1) as nat);
    }
}

/// `m + n` loops are `m` loops followed by `n` loops.
pub proof fn law_loops_compose(s: State, rom: Seq<u8>, instr: nat, m: nat, n: nat)
    ensures
        vm::after_loops(s, rom, instr, m + n) == vm::after_loops(
            vm::after_loops(s, rom, instr, m),
            rom,
            instr,
            n,
        ),
    decreases n,
{
    if n > 0 {
        law_loops_compose(s, rom, instr, m, (n - 1) as nat);
        assert((m + n - 1) as nat == m + (n - 1) as nat);
    }
}

proof fn lemma_wrapping_sum(a: int, b: int)
    ensures
        (a % 0x1_0000_0000 + b) % 0x1_0000_0000 == (a + b) % 0x1_0000_0000,
{
}

proof fn lemma_step_moves_pointer(s: State, rom: Seq<u8>)
    ensures
        vm::after_step(s, rom).ip == (s.ip + 1) % 0x1_0000_0000,
        vm::after_step(s, rom).loop_counter == s.loop_counter,
{
}

proof fn lemma_steps_move_pointer(s: State, rom: Seq<u8>, n: nat)
    ensures
        vm::after_steps(s, rom, n).ip == (s.ip + n) % 0x1_0000_0000,
        vm::after_steps(s, rom, n).loop_counter == s.loop_counter,
    decreases n,
{
    if n > 0 {
        let m = (n - 1) as nat;
        let before = vm::after_steps(s, rom, m);
        let after = vm::after_steps(s, rom, n);
        assert(after == vm::after_step(before, rom));
        lemma_steps_move_pointer(s, rom, m);
        lemma_step_moves_pointer(before, rom);
        lemma_wrapping_sum(s.ip + m, 1);
    }
}

proof fn lemma_loop_moves_counters(s: State, rom: Seq<u8>, instr: nat)
    ensures
        vm::after_execute(s, rom, instr).ip == (s.ip + instr) % 0x1_0000_0000,
        vm::after_execute(s, rom, instr).loop_counter == (s.loop_counter + 1) % 0x1_0000_0000,
{
    lemma_steps_move_pointer(vm::after_shuffle(s), rom, instr);
}

/// The instruction pointer counts all steps of all loops, and the loop counter all loops: no loop
/// sets either of them back.
pub proof fn law_counters_are_never_reset(s: State, rom: Seq<u8>, instr: nat, n: nat)
    ensures
        vm::after_loops(s, rom, instr, n).ip == (s.ip + n * instr) % 0x1_0000_0000,
        vm::after_loops(s, rom, instr, n).loop_counter == (s.loop_counter + n) % 0x1_0000_0000,
    decreases n,
{
    if n == 0 {
        assert(n * instr == 0) by (nonlinear_arith)
            requires
                n == 0,
        ;
    } else {
        let m = (n - 1) as nat;
        law_counters_are_never_reset(s, rom, instr, m);
        let before = vm::after_loops(s, rom, instr, m);
        let after = vm::after_loops(s, rom, instr, n);
        assert(after == vm::after_execute(before, rom, instr));
        lemma_loop_moves_counters(before, rom, instr);
        let steps_before = m * instr;
        lemma_wrapping_sum(s.ip + steps_before, instr as int);
        lemma_wrapping_sum(s.loop_counter + m, 1);
        assert(n * instr == steps_before + instr) by (nonlinear_arith)
            requires
                n == m + 1,
                steps_before == m * instr,
        ;
    }
}

/// A loop starts from a fresh program: of the program before it, only the size matters.
pub proof fn law_loop_forgets_program(s: State, program: Seq<u8>, rom: Seq<u8>, instr: nat)
    requires
        program.len() == s.program.len(),
    ensures
        vm::after_execute(State { program, ..s }, rom, instr) == vm::after_execute(
            s,
            rom,
            instr,
        ),
{
}

/// Combining the same bytes twice with exclusive or changes nothing.
pub proof fn law_xor_undoes_itself(a: Seq<u8>, b: Seq<u8>)
    requires
        a.len() == b.len(),
    ensures
        rom::xored(rom::xored(a, b), b) == a,
{
    assert forall|i: int| 0 <= i < a.len() implies (a[i] ^ b[i]) ^ b[i] == a[i] by {
        let x = a[i];
        let y = b[i];
        assert((x ^ y) ^ y == x) by (bit_vector);
    }
    assert(rom::xored(rom::xored(a, b), b) =~= a);
}

/// Register `i`, mixed with some rounds, is its old value combined with what the same rounds make
/// of zero.
proof fn lemma_mixed_register_splits(r: u64, mixing: Seq<u8>, i: int, rounds: nat)
    ensures
        vm::mixed_register(r, mixing, i, rounds) == r ^ vm::mixed_register(
            0,
            mixing,
            i,
            rounds,
        ),
    decreases rounds,
{
    if rounds == 0 {
        assert(r ^ 0 == r) by (bit_vector);
    } else {
        lemma_mixed_register_splits(r, mixing, i, (rounds - 1) as nat);
        let x = vm::mixed_register(0, mixing, i, (rounds - 1) as nat);
        let w = bytes::word_at(mixing, 32 * (rounds - 1) + i);
        assert((r ^ x) ^ w == r ^ (x ^ w)) by (bit_vector);
    }
}

/// Mixing the same bytes into the registers twice changes nothing: no information is lost.
pub proof fn law_mixing_undoes_itself(regs: Seq<u64>, mixing: Seq<u8>)
    requires
        regs.len() == 32,
    ensures
        vm::mixed_registers(vm::mixed_registers(regs, mixing), mixing) == regs,
{
    let once = vm::mixed_registers(regs, mixing);
    assert forall|i: int| 0 <= i < 32 implies vm::mixed_register(
        once[i],
        mixing,
        i,
        32,
    ) == regs[i] by {
        lemma_mixed_register_splits(regs[i], mixing, i, 32);
        lemma_mixed_register_splits(once[i], mixing, i, 32);
        let r = regs[i];
        let x = vm::mixed_register(0, mixing, i, 32);
        assert((r ^ x) ^ x == r) by (bit_vector);
    }
    assert(vm::mixed_registers(once, mixing) =~= regs);
}

/// A memory whose lines are made of one line each repeats the small memory.
pub proof fn law_single_line_mixing_repeats(
    pre_rom: Seq<u8>,
    offsets_diff: Seq<u16>,
    offset_base: Seq<u8>,
    size: nat,
    k: int,
)
    requires
        pre_rom.len() >= 64,
        pre_rom.len() % 64 == 0,
        0 <= k < size,
    ensures
        rom::assembled(pre_rom, offsets_diff, offset_base, 1, size)[k] == pre_rom[k
            % pre_rom.len() as int],
{
    let lines = pre_rom.len() as int / 64;
    let line = k / 64;
    assert(k % (64 * lines) == 64 * (line % lines) + k % 64) by {
        vstd::arithmetic::div_mod::lemma_mod_breakdown(k, 64, lines);
    }
}

proof fn lemma_rotation_down_undoes_up(x: u64, k: int)
    requires
        0 <= k < 64,
    ensures
        word::rotated_right(word::rotated_left(x, k), k) == x,
{
    let left = word::rotated_left(x, k);
    let back = Seq::new(64, |i: int| word::bit(left, (i + k) % 64));
    assert forall|i: int| 0 <= i < 64 implies back[i] == #[trigger] word::bit(x, i) by {
        let j = (i + k) % 64;
        word::lemma_bit_of_rotation(x, k, j);
        assert((j - k) % 64 == i);
    }
    word::lemma_bits_determine(x, back);
}

proof fn lemma_rotation_up_undoes_down(x: u64, k: int)
    requires
        0 <= k < 64,
    ensures
        word::rotated_left(word::rotated_right(x, k), k) == x,
{
    let right = word::rotated_right(x, k);
    let back = Seq::new(64, |i: int| word::bit(right, (i - k) % 64));
    assert forall|i: int| 0 <= i < 64 implies back[i] == #[trigger] word::bit(x, i) by {
        let j = (i - k) % 64;
        word::lemma_bit_of_rotation(x, k, j);
        assert((j + k) % 64 == i);
    }
    word::lemma_bits_determine(x, back);
}

/// Every number has a rounded-down square root.
pub proof fn law_isqrt_exists(x: nat)
    ensures
        word::is_isqrt(word::isqrt_of(x), x),
    decreases x,
{
    if x == 0 {
        assert(word::is_isqrt(0, 0)) by (nonlinear_arith);
    } else {
        law_isqrt_exists((x - 1) as nat);
        let r = word::isqrt_of((x - 1) as nat);
        if x < (r + 1) * (r + 1) {
            assert(word::is_isqrt(r, x));
        } else {
            assert((r + 1) * (r + 1) < (r + 2) * (r + 2)) by (nonlinear_arith);
            assert(word::is_isqrt(r + 1, x));
        }
    }
}

/// Rotating up and then down by the same number of places, or the other way round, changes
/// nothing.
pub proof fn law_rotations_undo_each_other(x: u64, n: int)
    ensures
        word::rotated_right(word::rotated_left(x, n), n) == x,
        word::rotated_left(word::rotated_right(x, n), n) == x,
{
    word::lemma_rotation_counts_modulo_64(x, n);
    word::lemma_rotation_counts_modulo_64(word::rotated_left(x, n), n);
    word::lemma_rotation_counts_modulo_64(word::rotated_right(x, n), n);
    lemma_rotation_down_undoes_up(x, n % 64);
    lemma_rotation_up_undoes_down(x, n % 64);
}

/// Reversing the bits of a word twice changes nothing.
pub proof fn law_reversal_undoes_itself(x: u64)
    ensures
        word::reversed(word::reversed(x)) == x,
{
    let back = Seq::new(64, |i: int| word::bit(x, 63 - i));
    let r = word::reversed(x);
    word::lemma_bits_of_number(back);
    assert forall|i: int| 0 <= i < 64 implies word::bit(r, 63 - i)
        == #[trigger] word::bit(x, i) by {
        assert(back[63 - i] == word::bit(r, 63 - i));
    }
    word::lemma_bits_determine(x, Seq::new(64, |i: int| word::bit(r, 63 - i)));
}

proof fn lemma_u32_bytes_tell(x: u32, y: u32)
    requires
        bytes::le_bytes(x as nat, 4) == bytes::le_bytes(y as nat, 4),
    ensures
        x == y,
{
    assert(vstd::arithmetic::power::pow(256, 4) == 0x1_0000_0000) by {
        reveal_with_fuel(vstd::arithmetic::power::pow, 5);
    }
    bytes::lemma_le_value_of_bytes(x as nat, 4);
    bytes::lemma_le_value_of_bytes(y as nat, 4);
}

/// The bytes of a word, read back, are the word.
pub proof fn law_word_bytes_round_trip(x: u64)
    ensures
        bytes::word_at(bytes::le_bytes(x as nat, 8), 0) == x,
{
    let s = bytes::le_bytes(x as nat, 8);
    bytes::lemma_le_bytes_len(x as nat, 8);
    assert(s.subrange(0, 8) =~= s);
    assert(vstd::arithmetic::power::pow(256, 8) == 0x1_0000_0000_0000_0000) by {
        reveal_with_fuel(vstd::arithmetic::power::pow, 9);
    }
    bytes::lemma_le_value_of_bytes(x as nat, 8);
}

/// Joining a part of known length and another part tells both parts.
proof fn lemma_joined_parts(a: Seq<u8>, b: Seq<u8>, c: Seq<u8>, d: Seq<u8>)
    requires
        a.len() == c.len(),
        a + b == c + d,
    ensures
        a == c,
        b == d,
{
    let n = a.len() as int;
    assert((a + b).take(n) =~= a);
    assert((c + d).take(n) =~= c);
    assert((a + b).skip(n) =~= b);
    assert((c + d).skip(n) =~= d);
}

/// What a hash operation digests tells its two sources: different sources never give the same
/// message.
pub proof fn law_hash_message_tells_sources(a: u64, b: u64, c: u64, d: u64)
    requires
        vm::hash_message(a, b) == vm::hash_message(c, d),
    ensures
        a == c,
        b == d,
{
    bytes::lemma_le_bytes_len(a as nat, 8);
    bytes::lemma_le_bytes_len(c as nat, 8);
    lemma_joined_parts(
        bytes::le_bytes(a as nat, 8),
        bytes::le_bytes(b as nat, 8),
        bytes::le_bytes(c as nat, 8),
        bytes::le_bytes(d as nat, 8),
    );
    law_word_bytes_round_trip(a);
    law_word_bytes_round_trip(b);
    law_word_bytes_round_trip(c);
    law_word_bytes_round_trip(d);
}

/// What a machine starts from is specific to the memory, by its digest, and to the salt: different
/// pairs never give the same input.
pub proof fn law_start_tells_memory_and_salt(
    digest1: Seq<u8>,
    salt1: Seq<u8>,
    digest2: Seq<u8>,
    salt2: Seq<u8>,
)
    requires
        digest1.len() == 64,
        digest2.len() == 64,
        digest1 + salt1 == digest2 + salt2,
    ensures
        digest1 == digest2,
        salt1 == salt2,
{
    lemma_joined_parts(digest1, salt1, digest2, salt2);
}

/// What the seed of a memory is the digest of tells the size of the memory and its key.
pub proof fn law_seed_tells_size_and_key(size1: u32, key1: Seq<u8>, size2: u32, key2: Seq<u8>)
    requires
        rom::seed_message(key1, size1 as nat) == rom::seed_message(key2, size2 as nat),
    ensures
        size1 == size2,
        key1 == key2,
{
    bytes::lemma_le_bytes_len(size1 as nat, 4);
    bytes::lemma_le_bytes_len(size2 as nat, 4);
    lemma_joined_parts(
        bytes::le_bytes(size1 as nat, 4),
        key1,
        bytes::le_bytes(size2 as nat, 4),
        key2,
    );
    lemma_u32_bytes_tell(size1, size2);
}

/// The digests that the two-step generation takes of one seed are digests of different messages:
/// one for each group of relative offsets, and another one for the base offsets.
pub proof fn law_generation_messages_differ(seed: Seq<u8>, i: u32, j: u32)
    ensures
        rom::offset_message(seed, i as int) == rom::offset_message(seed, j as int) ==> i == j,
        rom::offset_message(seed, i as int) != rom::base_message(seed),
{
    rom::lemma_tag_lengths();
    bytes::lemma_le_bytes_len(i as nat, 4);
    bytes::lemma_le_bytes_len(j as nat, 4);
    if rom::offset_message(seed, i as int) == rom::offset_message(seed, j as int) {
        let head = seed + "generation offset".spec_bytes();
        lemma_joined_parts(
            head,
            bytes::le_bytes(i as nat, 4),
            head,
            bytes::le_bytes(j as nat, 4),
        );
        lemma_u32_bytes_tell(i, j);
    }
    assert(rom::offset_message(seed, i as int).len() == seed.len() + 21);
    assert(rom::base_message(seed).len() == seed.len() + 15);
}

proof fn lemma_register_bytes_len(regs: Seq<u64>)
    ensures
        vm::register_bytes(regs).len() == 8 * regs.len(),
    decreases regs.len(),
{
    if regs.len() > 0 {
        lemma_register_bytes_len(regs.drop_last());
        bytes::lemma_le_bytes_len(regs.last() as nat, 8);
    }
}

proof fn lemma_register_bytes_tell(a: Seq<u64>, b: Seq<u64>)
    requires
        a.len() == b.len(),
        vm::register_bytes(a) == vm::register_bytes(b),
    ensures
        a == b,
    decreases a.len(),
{
    if a.len() == 0 {
        assert(a =~= b);
    } else {
        lemma_register_bytes_len(a.drop_last());
        lemma_register_bytes_len(b.drop_last());
        lemma_joined_parts(
            vm::register_bytes(a.drop_last()),
            bytes::le_bytes(a.last() as nat, 8),
            vm::register_bytes(b.drop_last()),
            bytes::le_bytes(b.last() as nat, 8),
        );
        lemma_register_bytes_tell(a.drop_last(), b.drop_last());
        law_word_bytes_round_trip(a.last());
        law_word_bytes_round_trip(b.last());
        assert(a =~= a.drop_last().push(a.last()));
        assert(b =~= b.drop_last().push(b.last()));
    }
}

/// What the result of a machine is the digest of tells what the two running digests end in, how
/// often the memory was read, and every register.
pub proof fn law_final_message_tells_outcome(
    prog1: Seq<u8>,
    mem1: Seq<u8>,
    counter1: u32,
    regs1: Seq<u64>,
    prog2: Seq<u8>,
    mem2: Seq<u8>,
    counter2: u32,
    regs2: Seq<u64>,
)
    requires
        prog1.len() == 64,
        mem1.len() == 64,
        regs1.len() == 32,
        prog2.len() == 64,
        mem2.len() == 64,
        regs2.len() == 32,
        vm::final_message(prog1, mem1, counter1, regs1) == vm::final_message(
            prog2,
            mem2,
            counter2,
            regs2,
        ),
    ensures
        prog1 == prog2,
        mem1 == mem2,
        counter1 == counter2,
        regs1 == regs2,
{
    let c1 = bytes::le_bytes(counter1 as nat, 4);
    let c2 = bytes::le_bytes(counter2 as nat, 4);
    bytes::lemma_le_bytes_len(counter1 as nat, 4);
    bytes::lemma_le_bytes_len(counter2 as nat, 4);
    lemma_joined_parts(
        prog1 + mem1 + c1,
        vm::register_bytes(regs1),
        prog2 + mem2 + c2,
        vm::register_bytes(regs2),
    );
    lemma_joined_parts(prog1 + mem1, c1, prog2 + mem2, c2);
    lemma_joined_parts(prog1, mem1, prog2, mem2);
    lemma_u32_bytes_tell(counter1, counter2);
    lemma_register_bytes_tell(regs1, regs2);
}

/// The two halves of a product, as two operations give them, join to the whole product, and a sum
/// counts modulo 2 to the power of 64.
pub proof fn law_product_halves_join(
    src1: u64,
    src2: u64,
    special1: u64,
    digest: Seq<u8>,
)
    ensures
        instruction::op3_result(Op3::MulH, src1, src2, special1, digest) * 0x1_0000_0000_0000_0000
            + instruction::op3_result(Op3::Mul, src1, src2, special1, digest) == src1 * src2,
        instruction::op3_result(Op3::Add, src1, src2, special1, digest) == (src1 + src2)
            % 0x1_0000_0000_0000_0000,
{
    let product: int = src1 * src2;
    assert(0 <= product <= 0xffff_ffff_ffff_ffff * 0xffff_ffff_ffff_ffff) by (nonlinear_arith)
        requires
            product == src1 * src2,
            0 <= src1 <= 0xffff_ffff_ffff_ffff,
            0 <= src2 <= 0xffff_ffff_ffff_ffff,
    ;
}

/// The first source of an instruction.
pub open spec fn first_source(s: State, rom: Seq<u8>, i: Instruction) -> u64 {
    vm::operand_value(s, rom, i.op1, i.r1, i.lit1)
}

/// The second source of an instruction, which is read after the first one.
pub open spec fn second_source(s: State, rom: Seq<u8>, i: Instruction) -> u64 {
    vm::operand_value(vm::after_operand(s, rom, i.op1, i.lit1), rom, i.op2, i.r2, i.lit2)
}

/// What an instruction leaves in its destination register when its operation is `operator`.
pub open spec fn stored(s: State, rom: Seq<u8>, i: Instruction, operator: Op3) -> u64 {
    vm::after_operation(s, rom, Instruction { opcode: Instr::Op3(operator), ..i }).regs[i.r3 as int]
}

/// A register is read as it is, and so is a literal; neither changes the state.
pub proof fn law_plain_operands(s: State, rom: Seq<u8>, r: u8, lit: u64)
    ensures
        vm::operand_value(s, rom, Operand::Reg, r, lit) == s.regs[r as int],
        vm::operand_value(s, rom, Operand::Literal, r, lit) == lit,
        vm::after_operand(s, rom, Operand::Reg, lit) == s,
        vm::after_operand(s, rom, Operand::Literal, lit) == s,
{
}

/// From the same state and with the same operands, the instructions that multiply leave the two
/// halves of the product of their sources, and the one that adds leaves the wrapped sum.
pub proof fn law_product_halves_in_registers(s: State, rom: Seq<u8>, i: Instruction)
    requires
        s.regs.len() == 32,
        i.r3 < 32,
    ensures
        stored(s, rom, i, Op3::MulH) * 0x1_0000_0000_0000_0000 + stored(s, rom, i, Op3::Mul)
            == first_source(s, rom, i) * second_source(s, rom, i),
        stored(s, rom, i, Op3::Add) == (first_source(s, rom, i) + second_source(s, rom, i))
            % 0x1_0000_0000_0000_0000,
{
    let src1 = first_source(s, rom, i);
    let src2 = second_source(s, rom, i);
    let special1 = vm::special_value(s.prog_digest);
    let hashed = digest::blake2b_512(vm::hash_message(src1, src2));
    lemma_stored(s, rom, i, Op3::MulH);
    lemma_stored(s, rom, i, Op3::Mul);
    lemma_stored(s, rom, i, Op3::Add);
    law_product_halves_join(src1, src2, special1, hashed);
}

proof fn lemma_stored(s: State, rom: Seq<u8>, i: Instruction, operator: Op3)
    requires
        s.regs.len() == 32,
        i.r3 < 32,
    ensures
        ({
            let src1 = first_source(s, rom, i);
            let src2 = second_source(s, rom, i);
            stored(s, rom, i, operator) == instruction::op3_result(
                operator,
                src1,
                src2,
                vm::special_value(s.prog_digest),
                digest::blake2b_512(vm::hash_message(src1, src2)),
            )
        }),
{
}

proof fn lemma_place_moved_back(k: int, n: int)
    requires
        0 <= k < 64,
    ensures
        0 <= (k + n) % 64 < 64,
        ((k + n) % 64 - n) % 64 == k,
{
}

/// Rotating up by `n` places moves bit `k` to the place `k + n`, counted modulo 64.
pub proof fn law_rotation_moves_bits(x: u64, n: int, k: int)
    requires
        0 <= k < 64,
    ensures
        word::bit(word::rotated_left(x, n), (k + n) % 64) == word::bit(x, k),
{
    lemma_place_moved_back(k, n);
    word::lemma_bit_of_rotation(x, n, (k + n) % 64);
}

/// An instruction that rotates up moves bit `k` of its first source to the place `k` plus its
/// second source, counted modulo 64.
pub proof fn law_rotating_instruction_moves_bits(s: State, rom: Seq<u8>, i: Instruction, k: int)
    requires
        s.regs.len() == 32,
        i.r3 < 32,
        0 <= k < 64,
    ensures
        word::bit(stored(s, rom, i, Op3::RotL), (k + second_source(s, rom, i)) % 64) == word::bit(
            first_source(s, rom, i),
            k,
        ),
{
    lemma_stored(s, rom, i, Op3::RotL);
    law_rotation_moves_bits(first_source(s, rom, i), second_source(s, rom, i) as int, k);
}

/// An instruction that rotates down what another one has rotated up, by the same second source,
/// gives the first source of that other one back.
pub proof fn law_rotating_instructions_undo_each_other(
    s: State,
    i: Instruction,
    t: State,
    j: Instruction,
    rom: Seq<u8>,
)
    requires
        s.regs.len() == 32,
        i.r3 < 32,
        t.regs.len() == 32,
        j.r3 < 32,
        first_source(t, rom, j) == stored(s, rom, i, Op3::RotL),
        second_source(t, rom, j) == second_source(s, rom, i),
    ensures
        stored(t, rom, j, Op3::RotR) == first_source(s, rom, i),
{
    lemma_stored(s, rom, i, Op3::RotL);
    lemma_stored(t, rom, j, Op3::RotR);
    law_rotations_undo_each_other(first_source(s, rom, i), second_source(s, rom, i) as int);
}

/// An operation with one source never looks at the second operand: not at its kind, not at its
/// register and not at its literal.
pub proof fn law_one_source_ignores_second_operand(
    s: State,
    rom: Seq<u8>,
    i: Instruction,
    op2: Operand,
    r2: u8,
    lit2: u64,
)
    requires
        i.opcode is Op2,
    ensures
        vm::after_operation(s, rom, Instruction { op2, r2, lit2, ..i }) == vm::after_operation(
            s,
            rom,
            i,
        ),
{
}

/// Two encoded operations with one source that differ only in what encodes the second operand, or
/// in the bit that encodes nothing, do the same to the registers, to the memory digest and to the
/// count of accesses to the memory.
pub proof fn law_one_source_code_ignores_second_operand(
    s: State,
    program: Seq<u8>,
    rom: Seq<u8>,
)
    requires
        ({
            let code1 = program::instruction_at(s.program, s.ip as int);
            let code2 = program::instruction_at(program, s.ip as int);
            let packed1 = 256 * code1[2] + code1[3];
            let packed2 = 256 * code2[2] + code2[3];
            &&& instruction::instr_of(code1[0]) is Op2
            &&& code1[0] == code2[0]
            &&& code1[1] / 16 == code2[1] / 16
            &&& (packed1 / 1024) % 32 == (packed2 / 1024) % 32
            &&& packed1 % 32 == packed2 % 32
            &&& code1.subrange(4, 12) == code2.subrange(4, 12)
        }),
    ensures
        ({
            let after1 = vm::after_instruction(s, rom);
            let after2 = vm::after_instruction(State { program, ..s }, rom);
            &&& after1.regs == after2.regs
            &&& after1.mem_digest == after2.mem_digest
            &&& after1.memory_counter == after2.memory_counter
        }),
{
}

/// How many times `n` steps read the memory.
pub open spec fn reads_in_steps(s: State, rom: Seq<u8>, n: nat) -> nat
    decreases n,
{
    if n == 0 {
        0
    } else {
        reads_in_steps(s, rom, (n - 1) as nat) + vm::reads_next(
            vm::after_steps(s, rom, (n - 1) as nat),
        )
    }
}

proof fn lemma_step_counts_reads(s: State, rom: Seq<u8>)
    ensures
        vm::reads_next(s) <= 2,
        vm::after_step(s, rom).memory_counter == (s.memory_counter + vm::reads_next(s))
            % 0x1_0000_0000,
{
}

/// `n` steps read the memory at most twice each, and the machine counts every access, modulo 2 to
/// the power of 32.
pub proof fn law_steps_count_memory_reads(s: State, rom: Seq<u8>, n: nat)
    ensures
        reads_in_steps(s, rom, n) <= 2 * n,
        vm::after_steps(s, rom, n).memory_counter == (s.memory_counter + reads_in_steps(s, rom, n))
            % 0x1_0000_0000,
    decreases n,
{
    if n > 0 {
        let m = (n - 1) as nat;
        let before = vm::after_steps(s, rom, m);
        let after = vm::after_steps(s, rom, n);
        assert(after == vm::after_step(before, rom));
        law_steps_count_memory_reads(s, rom, m);
        lemma_step_counts_reads(before, rom);
        lemma_wrapping_sum(
            s.memory_counter + reads_in_steps(s, rom, m),
            vm::reads_next(before) as int,
        );
    }
}

proof fn lemma_steps_keep_program(s: State, rom: Seq<u8>, n: nat)
    ensures
        vm::after_steps(s, rom, n).program == s.program,
    decreases n,
{
    if n > 0 {
        lemma_steps_keep_program(s, rom, (n - 1) as nat);
    }
}

/// The states `states` are those of a machine that starts in the first of them and makes one step
/// after the other.
pub open spec fn is_run(states: Seq<State>, rom: Seq<u8>) -> bool {
    &&& states.len() >= 1
    &&& forall|j: int|
        0 <= j < states.len() - 1 ==> #[trigger] states[j + 1] == vm::after_step(states[j], rom)
}

proof fn lemma_run_is_steps(states: Seq<State>, rom: Seq<u8>, n: nat)
    requires
        is_run(states, rom),
        n < states.len(),
    ensures
        vm::after_steps(states[0], rom, n) == states[n as int],
    decreases n,
{
    if n > 0 {
        lemma_run_is_steps(states, rom, (n - 1) as nat);
        assert(states[(n - 1) + 1] == vm::after_step(states[n - 1], rom));
    }
}

/// A loop of `n` steps is the expansion of the program seed into the program, one step after the
/// other, and the closing work. It leaves the program that the old seed expands to and, as the next
/// seed, what the program digest ends in; and it counts at most two accesses to the memory per
/// step.
pub proof fn law_loop_structure(s: State, states: Seq<State>, rom: Seq<u8>, n: nat)
    requires
        is_run(states, rom),
        states.len() == n + 1,
        states[0] == vm::after_shuffle(s),
    ensures
        ({
            let after = vm::after_execute(s, rom, n);
            let reads = reads_in_steps(states[0], rom, n);
            &&& after == vm::after_post_instructions(states[n as int])
            &&& after.program == digest::hprime_bytes(s.program.len(), s.prog_seed)
            &&& after.prog_seed == digest::blake2b_512(after.prog_digest)
            &&& reads <= 2 * n
            &&& after.memory_counter == (s.memory_counter + reads) % 0x1_0000_0000
        }),
{
    lemma_run_is_steps(states, rom, n);
    lemma_steps_keep_program(states[0], rom, n);
    law_steps_count_memory_reads(states[0], rom, n);
}

/// The sum of some lengths.
pub open spec fn total(lengths: Seq<nat>) -> nat
    decreases lengths.len(),
{
    if lengths.len() == 0 {
        0
    } else {
        total(lengths.drop_last()) + lengths.last()
    }
}

/// What an execution of `instr` steps does: it leads to the state after the loop, in which the
/// program has the size that it had before.
pub open spec fn is_execution(before: State, after: State, rom: Seq<u8>, instr: nat) -> bool {
    &&& after == vm::after_execute(before, rom, instr)
    &&& after.program.len() == before.program.len()
}

/// However long the executions of a machine are, the instruction pointer counts all their steps and
/// the loop counter the executions, both modulo 2 to the power of 32, and the program keeps its
/// size.
pub proof fn law_executions_count_on(states: Seq<State>, rom: Seq<u8>, lengths: Seq<nat>)
    requires
        states.len() == lengths.len() + 1,
        forall|j: int|
            0 <= j < lengths.len() ==> is_execution(
                states[j],
                #[trigger] states[j + 1],
                rom,
                lengths[j],
            ),
    ensures
        states.last().ip == (states[0].ip + total(lengths)) % 0x1_0000_0000,
        states.last().loop_counter == (states[0].loop_counter + lengths.len()) % 0x1_0000_0000,
        states.last().program.len() == states[0].program.len(),
    decreases lengths.len(),
{
    let k = lengths.len() as int;
    if k > 0 {
        let before = states.drop_last();
        assert forall|j: int| 0 <= j < k - 1 implies is_execution(
            before[j],
            #[trigger] before[j + 1],
            rom,
            lengths.drop_last()[j],
        ) by {
            assert(is_execution(states[j], states[j + 1], rom, lengths[j]));
        }
        law_executions_count_on(before, rom, lengths.drop_last());
        assert(is_execution(states[k - 1], states[(k - 1) + 1], rom, lengths[k - 1]));
        lemma_loop_moves_counters(states[k - 1], rom, lengths[k - 1]);
        lemma_wrapping_sum(states[0].ip + total(lengths.drop_last()), lengths[k - 1] as int);
        lemma_wrapping_sum(states[0].loop_counter + (k - 1), 1);
    }
}

/// [`law_executions_count_on`] for a machine from its start on: its pointer and its counter start
/// at zero, and its program has 20 bytes per instruction.
pub proof fn law_executions_count_from_start(
    init: Seq<u8>,
    nb_instrs: nat,
    states: Seq<State>,
    rom: Seq<u8>,
    lengths: Seq<nat>,
)
    requires
        states.len() == lengths.len() + 1,
        states[0] == vm::initial_state(init, nb_instrs),
        forall|j: int|
            0 <= j < lengths.len() ==> is_execution(
                states[j],
                #[trigger] states[j + 1],
                rom,
                lengths[j],
            ),
    ensures
        states.last().ip == total(lengths) % 0x1_0000_0000,
        states.last().loop_counter == lengths.len() % 0x1_0000_0000,
        states.last().program.len() == 20 * nb_instrs,
{
    law_executions_count_on(states, rom, lengths);
}

proof fn lemma_chain_is_loops(states: Seq<State>, rom: Seq<u8>, instr: nat, n: nat)
    requires
        n < states.len(),
        forall|j: int|
            0 <= j < states.len() - 1 ==> #[trigger] states[j + 1] == vm::after_execute(
                states[j],
                rom,
                instr,
            ),
    ensures
        vm::after_loops(states[0], rom, instr, n) == states[n as int],
    decreases n,
{
    if n > 0 {
        lemma_chain_is_loops(states, rom, instr, (n - 1) as nat);
        assert(states[(n - 1) + 1] == vm::after_execute(states[n - 1], rom, instr));
    }
}

/// A digest is the result of one machine that starts from the memory digest and the salt, makes
/// exactly as many executions as there are loops, each in the state that the one before left, and
/// is ended once.
pub proof fn law_hash_is_one_machine(
    salt: Seq<u8>,
    rom_digest: Seq<u8>,
    rom: Seq<u8>,
    loops: nat,
    instrs: nat,
    states: Seq<State>,
)
    requires
        states.len() == loops + 1,
        states[0] == vm::initial_state(digest::hprime_bytes(448, rom_digest + salt), instrs),
        forall|j: int|
            0 <= j < loops ==> #[trigger] states[j + 1] == vm::after_execute(
                states[j],
                rom,
                instrs,
            ),
    ensures
        crate::hash_of(salt, rom_digest, rom, loops, instrs) == vm::machine_result(states.last()),
{
    lemma_chain_is_loops(states, rom, instrs, loops);
}

/// A memory can be used any number of times: two memories with the same digest and the same bytes,
/// such as a memory before and after other uses, give the same digest for the same salt and counts.
pub proof fn law_memory_is_reusable(
    rom1: Rom,
    rom2: Rom,
    salt: Seq<u8>,
    loops: nat,
    instrs: nat,
)
    requires
        rom1.digest.0@ == rom2.digest.0@,
        rom1.data@ == rom2.data@,
    ensures
        crate::hash_of(salt, rom1.digest.0@, rom1.data@, loops, instrs) == crate::hash_of(
            salt,
            rom2.digest.0@,
            rom2.data@,
            loops,
            instrs,
        ),
{
}

/// The closing work sees the registers only through their wrapped sum: states that differ only in
/// registers of the same sum get the same digests, the same seed and the same words mixed in.
pub proof fn law_mixing_sees_only_the_sum(s: State, regs: Seq<u64>)
    requires
        s.regs.len() == 32,
        regs.len() == 32,
        vm::sum_of(s.regs) % 0x1_0000_0000_0000_0000 == vm::sum_of(regs)
            % 0x1_0000_0000_0000_0000,
    ensures
        ({
            let after1 = vm::after_post_instructions(s);
            let after2 = vm::after_post_instructions(State { regs, ..s });
            &&& after1.prog_digest == after2.prog_digest
            &&& after1.mem_digest == after2.mem_digest
            &&& after1.prog_seed == after2.prog_seed
            &&& forall|j: int|
                0 <= j < 32 ==> #[trigger] after1.regs[j] ^ s.regs[j] == after2.regs[j] ^ regs[j]
        }),
{
    let after1 = vm::after_post_instructions(s);
    let after2 = vm::after_post_instructions(State { regs, ..s });
    let mixing = digest::hprime_bytes(
        8192,
        digest::blake2b_512(
            vm::mixing_message(
                after1.prog_seed,
                digest::blake2b_512(after1.mem_digest),
                s.loop_counter,
            ),
        ),
    );
    assert forall|j: int| 0 <= j < 32 implies #[trigger] after1.regs[j] ^ s.regs[j]
        == after2.regs[j] ^ regs[j] by {
        lemma_mixed_register_splits(s.regs[j], mixing, j, 32);
        lemma_mixed_register_splits(regs[j], mixing, j, 32);
        let a = s.regs[j];
        let b = regs[j];
        let mask = vm::mixed_register(0, mixing, j, 32);
        assert((a ^ mask) ^ a == (b ^ mask) ^ b) by (bit_vector);
    }
}

/// Byte `k` of the source line that joins line `i` of the memory in step `d`.
spec fn source_byte(
    pre_rom: Seq<u8>,
    offsets_diff: Seq<u16>,
    base: u8,
    i: int,
    k: int,
    d: int,
) -> u8 {
    bytes::piece(
        pre_rom,
        64,
        rom::source_line(pre_rom.len() as int / 64, offsets_diff, base, i, d),
    )[k]
}

/// The bytes of the `count` steps from step `d` on, combined.
spec fn source_run(
    pre_rom: Seq<u8>,
    offsets_diff: Seq<u16>,
    base: u8,
    i: int,
    k: int,
    d: int,
    count: nat,
) -> u8
    decreases count,
{
    if count == 0 {
        0
    } else {
        source_run(pre_rom, offsets_diff, base, i, k, d, (count - 1) as nat) ^ source_byte(
            pre_rom,
            offsets_diff,
            base,
            i,
            k,
            d + count - 1,
        )
    }
}

proof fn lemma_further_steps(
    pre_rom: Seq<u8>,
    offsets_diff: Seq<u16>,
    base: u8,
    i: int,
    m: nat,
    count: nat,
)
    requires
        m >= 1,
    ensures
        ({
            let line = rom::mixed_line(pre_rom, offsets_diff, base, i, m);
            let further = rom::mixed_line(pre_rom, offsets_diff, base, i, m + count);
            &&& further.len() == line.len()
            &&& forall|k: int|
                0 <= k < line.len() ==> #[trigger] further[k] == line[k] ^ source_run(
                    pre_rom,
                    offsets_diff,
                    base,
                    i,
                    k,
                    m as int,
                    count,
                )
        }),
    decreases count,
{
    let line = rom::mixed_line(pre_rom, offsets_diff, base, i, m);
    let further = rom::mixed_line(pre_rom, offsets_diff, base, i, m + count);
    if count == 0 {
        assert forall|k: int| 0 <= k < line.len() implies #[trigger] further[k] == line[k]
            ^ source_run(pre_rom, offsets_diff, base, i, k, m as int, count) by {
            let x = line[k];
            assert(x ^ 0 == x) by (bit_vector);
        }
    } else {
        let c = (count - 1) as nat;
        lemma_further_steps(pre_rom, offsets_diff, base, i, m, c);
        let nearly = rom::mixed_line(pre_rom, offsets_diff, base, i, m + c);
        assert((m + count - 1) as nat == m + c);
        assert forall|k: int| 0 <= k < line.len() implies #[trigger] further[k] == line[k]
            ^ source_run(pre_rom, offsets_diff, base, i, k, m as int, count) by {
            let x = line[k];
            let run = source_run(pre_rom, offsets_diff, base, i, k, m as int, c);
            let y = source_byte(pre_rom, offsets_diff, base, i, k, (m + c) as int);
            assert(nearly[k] == x ^ run);
            assert(further[k] == nearly[k] ^ y);
            assert((x ^ run) ^ y == x ^ (run ^ y)) by (bit_vector);
        }
    }
}

proof fn lemma_run_repeats(
    pre_rom: Seq<u8>,
    offsets_diff: Seq<u16>,
    base: u8,
    i: int,
    k: int,
    d: int,
    count: nat,
)
    requires
        d >= 1,
        offsets_diff.len() == 128,
    ensures
        source_run(pre_rom, offsets_diff, base, i, k, d + 128, count) == source_run(
            pre_rom,
            offsets_diff,
            base,
            i,
            k,
            d,
            count,
        ),
    decreases count,
{
    if count > 0 {
        lemma_run_repeats(pre_rom, offsets_diff, base, i, k, d, (count - 1) as nat);
        assert((d + 128 + count - 2) % 128 == (d + count - 2) % 128);
    }
}

proof fn lemma_mixing_repeats(
    pre_rom: Seq<u8>,
    offsets_diff: Seq<u16>,
    base: u8,
    i: int,
    m: nat,
)
    requires
        m >= 1,
        offsets_diff.len() == 128,
    ensures
        rom::mixed_line(pre_rom, offsets_diff, base, i, m + 256) == rom::mixed_line(
            pre_rom,
            offsets_diff,
            base,
            i,
            m,
        ),
{
    let line = rom::mixed_line(pre_rom, offsets_diff, base, i, m);
    let once = rom::mixed_line(pre_rom, offsets_diff, base, i, m + 128);
    let twice = rom::mixed_line(pre_rom, offsets_diff, base, i, m + 256);
    lemma_further_steps(pre_rom, offsets_diff, base, i, m, 128);
    lemma_further_steps(pre_rom, offsets_diff, base, i, m + 128, 128);
    assert((m + 128) + 128 == m + 256);
    assert forall|k: int| 0 <= k < line.len() implies #[trigger] twice[k] == line[k] by {
        lemma_run_repeats(pre_rom, offsets_diff, base, i, k, m as int, 128);
        let x = line[k];
        let run = source_run(pre_rom, offsets_diff, base, i, k, m as int, 128);
        assert(once[k] == x ^ run);
        assert(twice[k] == once[k] ^ run);
        assert((x ^ run) ^ run == x) by (bit_vector);
    }
    assert(twice =~= line);
}

/// The 128 relative offsets are used again and again, so 256 further lines per line, each of them
/// combined twice, change nothing.
pub proof fn law_mixing_numbers_repeat(
    pre_rom: Seq<u8>,
    offsets_diff: Seq<u16>,
    offset_base: Seq<u8>,
    m: nat,
    size: nat,
)
    requires
        m >= 1,
        offsets_diff.len() == 128,
    ensures
        rom::assembled(pre_rom, offsets_diff, offset_base, m + 256, size) == rom::assembled(
            pre_rom,
            offsets_diff,
            offset_base,
            m,
            size,
        ),
{
    let more = rom::assembled(pre_rom, offsets_diff, offset_base, m + 256, size);
    let less = rom::assembled(pre_rom, offsets_diff, offset_base, m, size);
    assert forall|k: int| 0 <= k < size implies #[trigger] more[k] == less[k] by {
        lemma_mixing_repeats(pre_rom, offsets_diff, offset_base[k / 64], k / 64, m);
    }
    assert(more =~= less);
}

proof fn lemma_relative_offsets_len(seed: Seq<u8>, groups: nat)
    ensures
        rom::relative_offsets(seed, groups).len() == 32 * groups,
    decreases groups,
{
    if groups > 0 {
        lemma_relative_offsets_len(seed, (groups - 1) as nat);
    }
}

/// A memory of the two-step generation, and so its digest, is the same with 256 more mixing
/// numbers.
pub proof fn law_generation_repeats(
    seed: Seq<u8>,
    pre_size: usize,
    mixing1: usize,
    mixing2: usize,
    size: nat,
)
    requires
        mixing1 >= 1,
        mixing2 == mixing1 + 256,
    ensures
        rom::generated(
            RomGenerationType::TwoStep { pre_size, mixing_numbers: mixing2 },
            seed,
            size,
        ) == rom::generated(
            RomGenerationType::TwoStep { pre_size, mixing_numbers: mixing1 },
            seed,
            size,
        ),
{
    lemma_relative_offsets_len(seed, 4);
    law_mixing_numbers_repeat(
        digest::hprime_bytes(pre_size as nat, seed),
        rom::relative_offsets(seed, 4),
        digest::hprime_bytes(size / 64, digest::blake2b_512(rom::base_message(seed))),
        mixing1 as nat,
        size,
    );
}

/// Line `i` of `a` and line `i` of `b` differ by line `source` of `pre_rom`, combined into one of
/// them.
pub open spec fn differs_by_line(
    a: Seq<u8>,
    b: Seq<u8>,
    pre_rom: Seq<u8>,
    i: int,
    source: int,
) -> bool {
    forall|k: int|
        0 <= k < 64 ==> #[trigger] a[64 * i + k] ^ b[64 * i + k] == pre_rom[64 * source + k]
}

/// One more mixing number combines exactly one whole line of the small memory into each line of
/// the memory: the source line of step `m`.
pub proof fn law_one_more_mixing_number_adds_one_line(
    pre_rom: Seq<u8>,
    offsets_diff: Seq<u16>,
    offset_base: Seq<u8>,
    m: nat,
    size: nat,
    i: int,
)
    requires
        pre_rom.len() >= 64,
        pre_rom.len() % 64 == 0,
        m >= 1,
        0 <= i,
        64 * i + 64 <= size,
    ensures
        ({
            let less = rom::assembled(pre_rom, offsets_diff, offset_base, m, size);
            let more = rom::assembled(pre_rom, offsets_diff, offset_base, m + 1, size);
            let lines = pre_rom.len() as int / 64;
            let source = rom::source_line(lines, offsets_diff, offset_base[i], i, m as int);
            0 <= source < lines && differs_by_line(less, more, pre_rom, i, source)
        }),
{
    let less = rom::assembled(pre_rom, offsets_diff, offset_base, m, size);
    let more = rom::assembled(pre_rom, offsets_diff, offset_base, m + 1, size);
    let base = offset_base[i];
    let lines = pre_rom.len() as int / 64;
    let source = rom::source_line(lines, offsets_diff, base, i, m as int);
    let line = rom::mixed_line(pre_rom, offsets_diff, base, i, m);
    lemma_further_steps(pre_rom, offsets_diff, base, i, 1, (m - 1) as nat);
    assert(1 + (m - 1) as nat == m);
    assert(line.len() == 64);
    assert forall|k: int| 0 <= k < 64 implies #[trigger] less[64 * i + k] ^ more[64 * i + k]
        == pre_rom[64 * source + k] by {
        assert((64 * i + k) / 64 == i);
        assert((64 * i + k) % 64 == k);
        let x = line[k];
        let y = pre_rom[64 * source + k];
        assert(less[64 * i + k] == x);
        assert(more[64 * i + k] == x ^ y);
        assert(x ^ (x ^ y) == y) by (bit_vector);
    }
}

/// [`law_one_more_mixing_number_adds_one_line`] for the two-step generation, whose small memory has
/// the size that is asked for.
pub proof fn law_generation_adds_one_line(
    seed: Seq<u8>,
    pre_size: usize,
    mixing1: usize,
    mixing2: usize,
    size: nat,
    i: int,
)
    requires
        pre_size >= 64,
        pre_size % 64 == 0,
        mixing1 >= 1,
        mixing2 == mixing1 + 1,
        0 <= i,
        64 * i + 64 <= size,
    ensures
        ({
            let pre_rom = digest::hprime_bytes(pre_size as nat, seed);
            let less = rom::generated(
                RomGenerationType::TwoStep { pre_size, mixing_numbers: mixing1 },
                seed,
                size,
            );
            let more = rom::generated(
                RomGenerationType::TwoStep { pre_size, mixing_numbers: mixing2 },
                seed,
                size,
            );
            let offset_base = digest::hprime_bytes(
                size / 64,
                digest::blake2b_512(rom::base_message(seed)),
            );
            let lines = pre_size as int / 64;
            let source = rom::source_line(
                lines,
                rom::relative_offsets(seed, 4),
                offset_base[i],
                i,
                mixing1 as int,
            );
            pre_rom.len() == pre_size ==> 0 <= source < lines && differs_by_line(
                less,
                more,
                pre_rom,
                i,
                source,
            )
        }),
{
    let pre_rom = digest::hprime_bytes(pre_size as nat, seed);
    if pre_rom.len() == pre_size {
        law_one_more_mixing_number_adds_one_line(
            pre_rom,
            rom::relative_offsets(seed, 4),
            digest::hprime_bytes(size / 64, digest::blake2b_512(rom::base_message(seed))),
            mixing1 as nat,
            size,
            i,
        );
    }
}

} // verus!
