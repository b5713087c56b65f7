//! What the machine does with its registers, digests and counters, stated on the parts of its
//! state.

use super::{encoding, memory};
use crate::instruction::{Instr, Instruction, Operand};
use crate::vm::{State, VM};
use crate::{bytes, digest, instruction, program, vm};
use vstd::prelude::*;

verus! {

/// The state of a machine is what its fields hold, with nothing left out: the registers and the
/// counters as they are, and of each running digest the bytes that it has taken in.
pub proof fn law_state_is_the_fields(machine: VM)
    ensures
        machine@.program == machine.program.instructions@,
        machine@.regs == machine.regs@,
        machine@.ip == machine.ip,
        machine@.prog_digest == digest::absorbed(machine.prog_digest),
        machine@.mem_digest == digest::absorbed(machine.mem_digest),
        machine@.prog_seed == machine.prog_seed@,
        machine@.memory_counter == machine.memory_counter,
        machine@.loop_counter == machine.loop_counter,
        machine.wf() <==> digest::absorbed(machine.prog_digest).len() <= u64::MAX
            && digest::absorbed(machine.mem_digest).len() <= u64::MAX,
{
}

/// A machine starts with register `i` made of the bytes `8 * i` to `8 * i + 7` of `init`, with the
/// three pieces of 64 bytes behind the registers in its program digest, its memory digest and its
/// program seed, with every byte of its program zero, and with every counter at zero.
pub proof fn law_start_is_cut_from_bytes(init: Seq<u8>, nb_instrs: nat, i: int, k: int, p: int)
    requires
        init.len() == 448,
        0 <= i < 32,
        0 <= k < 64,
    ensures
        ({
            let start = vm::initial_state(init, nb_instrs);
            &&& start.regs.len() == 32
            &&& start.regs[i] == init[8 * i] + 0x100 * init[8 * i + 1] + 0x1_0000 * init[8 * i + 2]
                + 0x100_0000 * init[8 * i + 3] + 0x1_0000_0000 * init[8 * i + 4] + 0x100_0000_0000
                * init[8 * i + 5] + 0x1_0000_0000_0000 * init[8 * i + 6] + 0x100_0000_0000_0000
                * init[8 * i + 7]
            &&& start.prog_digest.len() == 64 && start.prog_digest[k] == init[256 + k]
            &&& start.mem_digest.len() == 64 && start.mem_digest[k] == init[320 + k]
            &&& start.prog_seed.len() == 64 && start.prog_seed[k] == init[384 + k]
            &&& start.program.len() == 20 * nb_instrs
            &&& 0 <= p < 20 * nb_instrs ==> start.program[p] == 0
            &&& start.ip == 0 && start.memory_counter == 0 && start.loop_counter == 0
        }),
{
    encoding::law_word_is_weighted_sum(init, i);
}

/// A counter moves on by one, and from the largest 32-bit number to zero.
pub proof fn law_counters_move_on(x: u32)
    ensures
        x < 0xffff_ffff ==> vm::next_u32(x) == x + 1,
        x == 0xffff_ffff ==> vm::next_u32(x) == 0,
{
}

/// The special value is the number that the first eight bytes of the digest of all bytes taken in
/// write down, least significant byte first.
pub proof fn law_special_value(taken_in: Seq<u8>)
    ensures
        ({
            let d = digest::blake2b_512(taken_in);
            d.len() == 64 ==> vm::special_value(taken_in) == d[0] + 0x100 * d[1] + 0x1_0000 * d[2]
                + 0x100_0000 * d[3] + 0x1_0000_0000 * d[4] + 0x100_0000_0000 * d[5]
                + 0x1_0000_0000_0000 * d[6] + 0x100_0000_0000_0000 * d[7]
        }),
{
    let d = digest::blake2b_512(taken_in);
    if d.len() == 64 {
        encoding::law_word_is_weighted_sum(d, 0);
    }
}

/// The special operands are the special values of the program digest and of the memory digest; to
/// read them, a register or a literal leaves the state as it is.
pub proof fn law_operands_outside_memory(s: State, rom: Seq<u8>, r: u8, lit: u64, kind: Operand)
    ensures
        vm::operand_value(s, rom, Operand::Reg, r, lit) == s.regs[r as int],
        vm::operand_value(s, rom, Operand::Literal, r, lit) == lit,
        vm::operand_value(s, rom, Operand::Special1, r, lit) == vm::special_value(s.prog_digest),
        vm::operand_value(s, rom, Operand::Special2, r, lit) == vm::special_value(s.mem_digest),
        kind != Operand::Memory ==> vm::after_operand(s, rom, kind, lit) == s,
{
}

/// An operand in the memory is word `turn` of line `line`. The lower 32 bits of the literal, `low`,
/// go `rounds` times round all lines and end at `line`; the accesses before this one go round the
/// eight words of a line and end at `turn`. The memory digest takes in the whole line, the access
/// is counted, and nothing else changes.
pub proof fn law_memory_operand(
    s: State,
    rom: Seq<u8>,
    r: u8,
    lit: u64,
    high: nat,
    low: nat,
    rounds: nat,
    line: int,
    turns: nat,
    turn: int,
)
    requires
        0 <= line < rom.len() as int / 64,
        lit == 0x1_0000_0000 * high + low,
        low < 0x1_0000_0000,
        low == rounds * (rom.len() as int / 64) + line,
        s.memory_counter == 8 * turns + turn,
        0 <= turn < 8,
    ensures
        ({
            let at = 64 * line + 8 * turn;
            vm::operand_value(s, rom, Operand::Memory, r, lit) == rom[at] + 0x100 * rom[at + 1]
                + 0x1_0000 * rom[at + 2] + 0x100_0000 * rom[at + 3] + 0x1_0000_0000 * rom[at + 4]
                + 0x100_0000_0000 * rom[at + 5] + 0x1_0000_0000_0000 * rom[at + 6]
                + 0x100_0000_0000_0000 * rom[at + 7]
        }),
        ({
            let after = vm::after_operand(s, rom, Operand::Memory, lit);
            &&& after.mem_digest == s.mem_digest + rom.subrange(64 * line, 64 * line + 64)
            &&& after.memory_counter == (s.memory_counter + 1) % 0x1_0000_0000
            &&& after.program == s.program && after.regs == s.regs && after.ip == s.ip
            &&& after.prog_digest == s.prog_digest && after.prog_seed == s.prog_seed
            &&& after.loop_counter == s.loop_counter
        }),
{
    let found = vm::addressed_line(rom, lit);
    assert(lit as int % 0x1_0000_0000 == low);
    assert forall|k: int| 0 <= k < 64 implies #[trigger] found[k] == rom[64 * line + k] by {
        memory::law_line_is_its_bytes(rom, rounds, line, k);
    }
    memory::law_line_is_its_bytes(rom, rounds, line, 0);
    assert(found.len() == 64) by {
        super::law_line_index_wraps(rom, low, 0);
    }
    assert(found =~= rom.subrange(64 * line, 64 * line + 64));
    encoding::law_word_is_weighted_sum(found, turn);
}

/// What a hash operation digests gives its two sources back, in order, and holds nothing else.
pub proof fn law_hash_message_holds_sources(src1: u64, src2: u64)
    ensures
        vm::hash_message(src1, src2).len() == 16,
        bytes::word_at(vm::hash_message(src1, src2), 0) == src1,
        bytes::word_at(vm::hash_message(src1, src2), 1) == src2,
{
    let message = vm::hash_message(src1, src2);
    let a = bytes::le_bytes(src1 as nat, 8);
    let b = bytes::le_bytes(src2 as nat, 8);
    bytes::lemma_le_bytes_len(src1 as nat, 8);
    bytes::lemma_le_bytes_len(src2 as nat, 8);
    super::law_word_bytes_round_trip(src1);
    super::law_word_bytes_round_trip(src2);
    assert(message.subrange(0, 8) =~= a.subrange(0, 8));
    assert(message.subrange(8, 16) =~= b.subrange(0, 8));
}

/// The operation of an instruction writes its result in the destination register and in no other.
/// The first operand is read before the second one, which an operation with one source does not
/// read at all; reading them makes all other changes.
pub proof fn law_operation_effects(s: State, rom: Seq<u8>, i: Instruction, j: int)
    requires
        s.regs.len() == 32,
        i.r3 < 32,
        0 <= j < 32,
    ensures
        ({
            let after = vm::after_operation(s, rom, i);
            let first = vm::after_operand(s, rom, i.op1, i.lit1);
            let read = if i.opcode is Op3 {
                vm::after_operand(first, rom, i.op2, i.lit2)
            } else {
                first
            };
            let src1 = vm::operand_value(s, rom, i.op1, i.r1, i.lit1);
            let src2 = vm::operand_value(first, rom, i.op2, i.r2, i.lit2);
            &&& after.regs.len() == 32
            &&& j != i.r3 ==> after.regs[j] == s.regs[j]
            &&& i.opcode matches Instr::Op3(operator) ==> after.regs[i.r3 as int]
                == instruction::op3_result(
                operator,
                src1,
                src2,
                vm::special_value(s.prog_digest),
                digest::blake2b_512(vm::hash_message(src1, src2)),
            )
            &&& i.opcode matches Instr::Op2(operator) ==> after.regs[i.r3 as int]
                == instruction::op2_result(operator, src1)
            &&& after.mem_digest == read.mem_digest
            &&& after.memory_counter == read.memory_counter
            &&& after.program == s.program && after.ip == s.ip
            &&& after.prog_digest == s.prog_digest && after.prog_seed == s.prog_seed
            &&& after.loop_counter == s.loop_counter
        }),
{
}

/// A step executes the 20 bytes from byte `20 * at` of the program on, where the instruction
/// pointer has gone `rounds` times round all instructions and ends at `at`. The program digest
/// takes in these bytes, and the pointer moves on by one.
pub proof fn law_step_executes_instruction(s: State, rom: Seq<u8>, rounds: nat, at: int)
    requires
        0 <= at < s.program.len() as int / 20,
        s.ip == rounds * (s.program.len() as int / 20) + at,
    ensures
        ({
            let code = s.program.subrange(20 * at, 20 * at + 20);
            let done = vm::after_operation(s, rom, instruction::decoded(code));
            let only = vm::after_instruction(s, rom);
            let after = vm::after_step(s, rom);
            &&& only.prog_digest == s.prog_digest + code
            &&& only.ip == s.ip
            &&& after.ip == (s.ip + 1) % 0x1_0000_0000
            &&& after.prog_digest == s.prog_digest + code
            &&& only.regs == done.regs && after.regs == done.regs
            &&& only.mem_digest == done.mem_digest && after.mem_digest == done.mem_digest
            &&& only.memory_counter == done.memory_counter && after.memory_counter
                == done.memory_counter
            &&& only.program == s.program && after.program == s.program
            &&& only.prog_seed == s.prog_seed && after.prog_seed == s.prog_seed
            &&& only.loop_counter == s.loop_counter && after.loop_counter == s.loop_counter
        }),
{
    let code = s.program.subrange(20 * at, 20 * at + 20);
    let found = program::instruction_at(s.program, s.ip as int);
    assert forall|k: int| 0 <= k < 20 implies #[trigger] found[k] == s.program[20 * at + k] by {
        memory::law_instruction_is_its_bytes(s.program, rounds, at, k);
    }
    assert(found.len() == 20) by {
        super::law_instruction_index_wraps(s.program, s.ip as nat, 0);
    }
    assert(found =~= code);
}

/// Before a loop, the program seed is expanded into the whole program, and nothing else changes.
pub proof fn law_shuffle_replaces_program_only(s: State)
    ensures
        ({
            let after = vm::after_shuffle(s);
            &&& after.program == digest::hprime_bytes(s.program.len(), s.prog_seed)
            &&& after.regs == s.regs && after.ip == s.ip
            &&& after.prog_digest == s.prog_digest && after.mem_digest == s.mem_digest
            &&& after.prog_seed == s.prog_seed && after.memory_counter == s.memory_counter
            &&& after.loop_counter == s.loop_counter
        }),
{
}

/// The sum of the registers changes by as much as one of them changes.
pub proof fn law_sum_follows_each_register(regs: Seq<u64>, j: int, value: u64)
    requires
        0 <= j < regs.len(),
    ensures
        vm::sum_of(regs.update(j, value)) + regs[j] == vm::sum_of(regs) + value,
    decreases regs.len(),
{
    let changed = regs.update(j, value);
    if j == regs.len() - 1 {
        assert(changed.drop_last() =~= regs.drop_last());
    } else {
        law_sum_follows_each_register(regs.drop_last(), j, value);
        assert(changed.drop_last() =~= regs.drop_last().update(j, value));
    }
}

/// The sum of registers that are all zero is zero.
pub proof fn law_sum_of_zeros(regs: Seq<u64>)
    requires
        forall|j: int| 0 <= j < regs.len() ==> regs[j] == 0,
    ensures
        vm::sum_of(regs) == 0,
    decreases regs.len(),
{
    if regs.len() > 0 {
        law_sum_of_zeros(regs.drop_last());
    }
}

proof fn lemma_mixing_differs(
    r: u64,
    mixing1: Seq<u8>,
    mixing2: Seq<u8>,
    i: int,
    rounds: nat,
    round: int,
)
    requires
        forall|t: int|
            0 <= t < rounds && t != round ==> #[trigger] bytes::word_at(mixing1, 32 * t + i)
                == bytes::word_at(mixing2, 32 * t + i),
    ensures
        ({
            let a = vm::mixed_register(r, mixing1, i, rounds);
            let b = vm::mixed_register(r, mixing2, i, rounds);
            if 0 <= round < rounds {
                a ^ b == bytes::word_at(mixing1, 32 * round + i) ^ bytes::word_at(
                    mixing2,
                    32 * round + i,
                )
            } else {
                a == b
            }
        }),
    decreases rounds,
{
    if rounds > 0 {
        let last = rounds - 1;
        lemma_mixing_differs(r, mixing1, mixing2, i, last as nat, round);
        let a = vm::mixed_register(r, mixing1, i, last as nat);
        let b = vm::mixed_register(r, mixing2, i, last as nat);
        let x = bytes::word_at(mixing1, 32 * last + i);
        let y = bytes::word_at(mixing2, 32 * last + i);
        if round == last {
            assert((a ^ x) ^ (a ^ y) == x ^ y) by (bit_vector);
        } else {
            assert(x == y);
            assert((a ^ x) ^ (b ^ x) == a ^ b) by (bit_vector);
        }
    }
}

/// Word `32 * round + i` of the 1024 words that are mixed in goes into register `i`, and into no
/// other: where two expansions differ in that word only, register `i` differs by as much as the
/// words differ, and every other register is the same.
pub proof fn law_each_mixing_word_goes_to_its_register(
    regs: Seq<u64>,
    mixing1: Seq<u8>,
    mixing2: Seq<u8>,
    round: int,
    i: int,
    j: int,
)
    requires
        mixing1.len() == 8192,
        mixing2.len() == 8192,
        0 <= round < 32,
        0 <= i < 32,
        0 <= j < 32,
        forall|p: int|
            0 <= p < 8192 && !(256 * round + 8 * i <= p < 256 * round + 8 * i + 8) ==> mixing1[p]
                == mixing2[p],
    ensures
        ({
            let mixed1 = vm::mixed_registers(regs, mixing1);
            let mixed2 = vm::mixed_registers(regs, mixing2);
            &&& mixed1.len() == 32
            &&& mixed1[i] ^ mixed2[i] == bytes::word_at(mixing1, 32 * round + i) ^ bytes::word_at(
                mixing2,
                32 * round + i,
            )
            &&& j != i ==> mixed1[j] == mixed2[j]
        }),
{
    assert forall|t: int, q: int|
        0 <= t < 32 && 0 <= q < 32 && !(t == round && q == i) implies #[trigger] bytes::word_at(
        mixing1,
        32 * t + q,
    ) == bytes::word_at(mixing2, 32 * t + q) by {
        let w = 32 * t + q;
        assert(w != 32 * round + i);
        assert(mixing1.subrange(8 * w, 8 * w + 8) =~= mixing2.subrange(8 * w, 8 * w + 8));
    }
    lemma_mixing_differs(regs[i], mixing1, mixing2, i, 32, round);
    if j != i {
        lemma_mixing_differs(regs[j], mixing1, mixing2, j, 32, -1);
    }
}

proof fn lemma_mixing_with_zeros(r: u64, mixing: Seq<u8>, i: int, rounds: nat)
    requires
        mixing.len() == 8192,
        forall|p: int| 0 <= p < 8192 ==> mixing[p] == 0,
        0 <= i < 32,
        rounds <= 32,
    ensures
        vm::mixed_register(r, mixing, i, rounds) == r,
    decreases rounds,
{
    if rounds > 0 {
        lemma_mixing_with_zeros(r, mixing, i, (rounds - 1) as nat);
        encoding::law_word_is_weighted_sum(mixing, 32 * (rounds - 1) + i);
        assert(r ^ 0 == r) by (bit_vector);
    }
}

/// Words that are all zero leave the registers as they are.
pub proof fn law_mixing_with_zeros(regs: Seq<u64>, mixing: Seq<u8>, i: int)
    requires
        mixing.len() == 8192,
        forall|p: int| 0 <= p < 8192 ==> mixing[p] == 0,
        0 <= i < 32,
    ensures
        vm::mixed_registers(regs, mixing)[i] == regs[i],
{
    lemma_mixing_with_zeros(regs[i], mixing, i, 32);
}

/// The closing work of a loop. Both digests take in the eight bytes `sum` of the wrapped sum of the
/// registers. What the two digests then amount to and the four bytes `count` of the loop counter
/// are digested, the digest is expanded to 8192 bytes, and these are mixed into the registers. What
/// the program digest amounts to is the next program seed, and the loop is counted.
pub proof fn law_closing_work(s: State, sum: Seq<u8>, count: Seq<u8>)
    requires
        sum.len() == 8,
        bytes::word_at(sum, 0) == vm::sum_of(s.regs) % 0x1_0000_0000_0000_0000,
        count.len() == 4,
        s.loop_counter == count[0] + 0x100 * count[1] + 0x1_0000 * count[2] + 0x100_0000 * count[3],
    ensures
        ({
            let after = vm::after_post_instructions(s);
            let prog_value = digest::blake2b_512(s.prog_digest + sum);
            let mem_value = digest::blake2b_512(s.mem_digest + sum);
            &&& after.prog_digest == s.prog_digest + sum
            &&& after.mem_digest == s.mem_digest + sum
            &&& after.prog_seed == prog_value
            &&& after.regs == vm::mixed_registers(
                s.regs,
                digest::hprime_bytes(
                    8192,
                    digest::blake2b_512(prog_value + mem_value + count),
                ),
            )
            &&& after.loop_counter == (s.loop_counter + 1) % 0x1_0000_0000
            &&& after.program == s.program && after.ip == s.ip
            &&& after.memory_counter == s.memory_counter
        }),
{
    encoding::law_word_is_weighted_sum(sum, 0);
    encoding::law_eight_bytes(sum, bytes::word_at(sum, 0));
    encoding::law_four_bytes(count, s.loop_counter);
}

/// Eight bytes per register, from which each register can be read back, are the bytes of the
/// registers.
proof fn lemma_register_bytes_are(regs: Seq<u64>, joined: Seq<u8>)
    requires
        joined.len() == 8 * regs.len(),
        forall|i: int| 0 <= i < regs.len() ==> #[trigger] bytes::word_at(joined, i) == regs[i],
    ensures
        vm::register_bytes(regs) == joined,
    decreases regs.len(),
{
    if regs.len() == 0 {
        assert(joined =~= Seq::empty());
    } else {
        let n = regs.len() - 1;
        let head = joined.take(8 * n);
        let last = joined.subrange(8 * n, 8 * n + 8);
        assert forall|i: int| 0 <= i < n implies #[trigger] bytes::word_at(head, i) == regs[i] by {
            assert(head.subrange(8 * i, 8 * i + 8) =~= joined.subrange(8 * i, 8 * i + 8));
            assert(bytes::word_at(joined, i) == regs[i]);
        }
        lemma_register_bytes_are(regs.drop_last(), head);
        assert(bytes::word_at(joined, n) == regs[n]);
        encoding::law_word_is_weighted_sum(last, 0);
        assert(last.subrange(0, 8) =~= last);
        encoding::law_eight_bytes(last, regs[n]);
        assert(joined =~= head + last);
    }
}

/// The result of a machine is the digest of what its program digest and its memory digest amount
/// to, of the four bytes `count` of the number of accesses to the memory, and of `joined`, which
/// holds all registers in order, eight bytes each.
pub proof fn law_result_digests_everything(s: State, count: Seq<u8>, joined: Seq<u8>)
    requires
        count.len() == 4,
        s.memory_counter == count[0] + 0x100 * count[1] + 0x1_0000 * count[2] + 0x100_0000
            * count[3],
        joined.len() == 8 * s.regs.len(),
        forall|i: int| 0 <= i < s.regs.len() ==> #[trigger] bytes::word_at(joined, i) == s.regs[i],
    ensures
        vm::machine_result(s) == digest::blake2b_512(
            digest::blake2b_512(s.prog_digest) + digest::blake2b_512(s.mem_digest) + count + joined,
        ),
{
    encoding::law_four_bytes(count, s.memory_counter);
    lemma_register_bytes_are(s.regs, joined);
}

/// No steps leave a machine as it is, and one step more is a step behind the others.
pub proof fn law_steps_follow_each_other(s: State, rom: Seq<u8>, n: nat)
    ensures
        vm::after_steps(s, rom, 0) == s,
        vm::after_steps(s, rom, n + 1) == vm::after_step(vm::after_steps(s, rom, n), rom),
        vm::after_steps(s, rom, n + 1) == vm::after_steps(vm::after_step(s, rom), rom, n),
{
    super::law_steps_compose(s, rom, 1, n);
    assert(vm::after_steps(s, rom, 1) == vm::after_step(vm::after_steps(s, rom, 0), rom));
    assert(1 + n == n + 1);
}

} // verus!
