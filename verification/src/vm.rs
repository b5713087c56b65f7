//! The virtual machine.

use crate::bytes::{as_array, read_word, u32_to_le, u64_to_le};
use crate::digest::{blake2b_clone, blake2b_finalize, blake2b_start, blake2b_update, hprime};
use crate::hex::push_hex;
use crate::instruction::{
    decode_instruction, execute_op2, execute_op3, Instr, Instruction, Op3, Operand, INSTR_SIZE,
    NB_REGS,
};
use crate::program::Program;
use crate::rom::{Rom, RomDigest};
use crate::{bytes, digest, hex, instruction, program, rom};
use cryptoxide::hashing::blake2b::Context;
use vstd::prelude::*;

verus! {

/// The size of a register, in bytes.
pub const REGISTER_SIZE: usize = 8;

/// The size of each of the two initial digest inputs and of the initial program seed, in bytes.
pub const DIGEST_INIT_SIZE: usize = 64;

/// The size of the bytes from which a machine starts.
pub const INIT_SIZE: usize = 448;

/// The size of the bytes that are mixed into the registers after each run of the program.
pub const MIXING_SIZE: usize = 8192;

/// The virtual machine.
pub struct VM {
    pub program: Program,
    pub regs: [u64; NB_REGS],
    pub ip: u32,
    pub prog_digest: Context<512>,
    pub mem_digest: Context<512>,
    pub prog_seed: [u8; 64],
    pub memory_counter: u32,
    pub loop_counter: u32,
}

/// The state of a machine. The two running digests are given by the bytes that they have taken in.
#[verifier::ext_equal]
pub struct State {
    pub program: Seq<u8>,
    pub regs: Seq<u64>,
    pub ip: u32,
    pub prog_digest: Seq<u8>,
    pub mem_digest: Seq<u8>,
    pub prog_seed: Seq<u8>,
    pub memory_counter: u32,
    pub loop_counter: u32,
}

impl View for VM {
    type V = State;

    open spec fn view(&self) -> State {
        State {
            program: self.program.instructions@,
            regs: self.regs@,
            ip: self.ip,
            prog_digest: digest::absorbed(self.prog_digest),
            mem_digest: digest::absorbed(self.mem_digest),
            prog_seed: self.prog_seed@,
            memory_counter: self.memory_counter,
            loop_counter: self.loop_counter,
        }
    }
}

/// The counter that follows `x`, back at zero behind the largest 32-bit number.
pub open spec fn next_u32(x: u32) -> u32 {
    ((x + 1) % 0x1_0000_0000) as u32
}

/// The state of a machine that starts from the bytes `init` with `nb_instrs` blank instructions.
pub open spec fn initial_state(init: Seq<u8>, nb_instrs: nat) -> State {
    State {
        program: Seq::new(20 * nb_instrs, |i: int| 0u8),
        regs: Seq::new(32, |i: int| bytes::word_at(init, i)),
        ip: 0,
        prog_digest: init.subrange(256, 320),
        mem_digest: init.subrange(320, 384),
        prog_seed: init.subrange(384, 448),
        memory_counter: 0,
        loop_counter: 0,
    }
}

/// The special value that a running digest gives: the first word of what it would end in now.
pub open spec fn special_value(taken_in: Seq<u8>) -> u64 {
    bytes::word_at(digest::blake2b_512(taken_in), 0)
}

/// The line of the memory that a literal addresses: its lower 32 bits count.
pub open spec fn addressed_line(rom: Seq<u8>, lit: u64) -> Seq<u8> {
    rom::rom_line(rom, lit as int % 0x1_0000_0000)
}

/// The value of a source operand.
pub open spec fn operand_value(s: State, rom: Seq<u8>, kind: Operand, r: u8, lit: u64) -> u64 {
    match kind {
        Operand::Reg => s.regs[r as int],
        Operand::Memory => bytes::word_at(addressed_line(rom, lit), s.memory_counter as int % 8),
        Operand::Literal => lit,
        Operand::Special1 => special_value(s.prog_digest),
        Operand::Special2 => special_value(s.mem_digest),
    }
}

/// The state after a source operand has been read. Only an access to the memory leaves a trace:
/// the memory digest takes in the line, and the access is counted.
pub open spec fn after_operand(s: State, rom: Seq<u8>, kind: Operand, lit: u64) -> State {
    match kind {
        Operand::Memory => State {
            mem_digest: s.mem_digest + addressed_line(rom, lit),
            memory_counter: next_u32(s.memory_counter),
            ..s
        },
        _ => s,
    }
}

/// What the `Hash` operation digests.
pub open spec fn hash_message(src1: u64, src2: u64) -> Seq<u8> {
    bytes::le_bytes(src1 as nat, 8) + bytes::le_bytes(src2 as nat, 8)
}

/// The state after the operation and the operands of an instruction, with the result stored.
pub open spec fn after_operation(s: State, rom: Seq<u8>, instruction: Instruction) -> State {
    let src1 = operand_value(s, rom, instruction.op1, instruction.r1, instruction.lit1);
    let s1 = after_operand(s, rom, instruction.op1, instruction.lit1);
    match instruction.opcode {
        Instr::Op3(operator) => {
            let src2 = operand_value(s1, rom, instruction.op2, instruction.r2, instruction.lit2);
            let s2 = after_operand(s1, rom, instruction.op2, instruction.lit2);
            let result = instruction::op3_result(
                operator,
                src1,
                src2,
                special_value(s2.prog_digest),
                digest::blake2b_512(hash_message(src1, src2)),
            );
            State { regs: s2.regs.update(instruction.r3 as int, result), ..s2 }
        },
        Instr::Op2(operator) => {
            let result = instruction::op2_result(operator, src1);
            State { regs: s1.regs.update(instruction.r3 as int, result), ..s1 }
        },
    }
}

/// The state after the instruction at the instruction pointer, which the program digest takes in.
pub open spec fn after_instruction(s: State, rom: Seq<u8>) -> State {
    let code = program::instruction_at(s.program, s.ip as int);
    let done = after_operation(s, rom, instruction::decoded(code));
    State { prog_digest: done.prog_digest + code, ..done }
}

/// How many times the instruction at the instruction pointer reads the memory.
pub open spec fn reads_next(s: State) -> nat {
    instruction::memory_reads(
        instruction::decoded(program::instruction_at(s.program, s.ip as int)),
    )
}

/// The state after one step: an instruction, and the instruction pointer moved on.
pub open spec fn after_step(s: State, rom: Seq<u8>) -> State {
    State { ip: next_u32(s.ip), ..after_instruction(s, rom) }
}

/// The state after `n` steps.
pub open spec fn after_steps(s: State, rom: Seq<u8>, n: nat) -> State
    decreases n,
{
    if n == 0 {
        s
    } else {
        after_step(after_steps(s, rom, (n - 1) as nat), rom)
    }
}

/// The sum of some registers.
pub open spec fn sum_of(regs: Seq<u64>) -> nat
    decreases regs.len(),
{
    if regs.len() == 0 {
        0
    } else {
        sum_of(regs.drop_last()) + regs.last() as nat
    }
}

/// Register `i`, of value `r`, with its word from each of the first `rounds` rounds of `mixing`
/// combined into it.
pub open spec fn mixed_register(r: u64, mixing: Seq<u8>, i: int, rounds: nat) -> u64
    decreases rounds,
{
    if rounds == 0 {
        r
    } else {
        mixed_register(r, mixing, i, (rounds - 1) as nat) ^ bytes::word_at(
            mixing,
            32 * (rounds - 1) + i,
        )
    }
}

/// The registers with the 32 rounds of words of `mixing` combined into them.
pub open spec fn mixed_registers(regs: Seq<u64>, mixing: Seq<u8>) -> Seq<u64> {
    Seq::new(32, |i: int| mixed_register(regs[i], mixing, i, 32))
}

/// What the bytes that are mixed into the registers are expanded from is the digest of this.
pub open spec fn mixing_message(
    prog_value: Seq<u8>,
    mem_value: Seq<u8>,
    loop_counter: u32,
) -> Seq<u8> {
    prog_value + mem_value + bytes::le_bytes(loop_counter as nat, 4)
}

/// The state after the work that ends a run of the program.
pub open spec fn after_post_instructions(s: State) -> State {
    let sum = bytes::le_bytes(sum_of(s.regs) % 0x1_0000_0000_0000_0000, 8);
    let prog_value = digest::blake2b_512(s.prog_digest + sum);
    let mem_value = digest::blake2b_512(s.mem_digest + sum);
    let mixing = digest::hprime_bytes(
        8192,
        digest::blake2b_512(mixing_message(prog_value, mem_value, s.loop_counter)),
    );
    State {
        regs: mixed_registers(s.regs, mixing),
        prog_digest: s.prog_digest + sum,
        mem_digest: s.mem_digest + sum,
        prog_seed: prog_value,
        loop_counter: next_u32(s.loop_counter),
        ..s
    }
}

/// The state with the program that the program seed expands to.
pub open spec fn after_shuffle(s: State) -> State {
    State { program: digest::hprime_bytes(s.program.len(), s.prog_seed), ..s }
}

/// The state after one loop: a new program, `instr` steps of it, and the work that ends the run.
pub open spec fn after_execute(s: State, rom: Seq<u8>, instr: nat) -> State {
    after_post_instructions(after_steps(after_shuffle(s), rom, instr))
}

/// The state after `n` loops of `instr` steps.
pub open spec fn after_loops(s: State, rom: Seq<u8>, instr: nat, n: nat) -> State
    decreases n,
{
    if n == 0 {
        s
    } else {
        after_execute(after_loops(s, rom, instr, (n - 1) as nat), rom, instr)
    }
}

/// The bytes of some registers, one behind the other.
pub open spec fn register_bytes(regs: Seq<u64>) -> Seq<u8>
    decreases regs.len(),
{
    if regs.len() == 0 {
        Seq::empty()
    } else {
        register_bytes(regs.drop_last()) + bytes::le_bytes(regs.last() as nat, 8)
    }
}

/// What the result of a machine is the digest of, where `prog_value` and `mem_value` are what its
/// two running digests end in.
pub open spec fn final_message(
    prog_value: Seq<u8>,
    mem_value: Seq<u8>,
    memory_counter: u32,
    regs: Seq<u64>,
) -> Seq<u8> {
    prog_value + mem_value + bytes::le_bytes(memory_counter as nat, 4) + register_bytes(regs)
}

/// The result of a machine.
pub open spec fn machine_result(s: State) -> Seq<u8> {
    digest::blake2b_512(
        final_message(
            digest::blake2b_512(s.prog_digest),
            digest::blake2b_512(s.mem_digest),
            s.memory_counter,
            s.regs,
        ),
    )
}

/// How a listing shows register `i`: every fourth register ends its line.
pub open spec fn register_entry(i: int, r: u64) -> Seq<char> {
    let index = hex::hex(i as nat, 2);
    let value = hex::hex(r as nat, 16);
    let entry = seq!['['] + index + seq![']', ' '] + value + seq![' '];
    if i % 4 == 3 {
        entry.push('\n')
    } else {
        entry
    }
}

/// How some registers are listed.
pub open spec fn listing(regs: Seq<u64>) -> Seq<char>
    decreases regs.len(),
{
    if regs.len() == 0 {
        Seq::empty()
    } else {
        listing(regs.drop_last()) + register_entry(regs.len() - 1, regs.last())
    }
}

impl VM {
    /// Whether both running digests are within the number of bytes that they can count.
    pub open spec fn wf(self) -> bool {
        &&& self@.prog_digest.len() <= u64::MAX
        &&& self@.mem_digest.len() <= u64::MAX
    }

    /// Creates a machine that is specific to the memory, by its digest, and to the salt.
    pub fn new(rom_digest: &RomDigest, nb_instrs: u32, salt: &[u8]) -> (vm: VM)
        requires
            nb_instrs * INSTR_SIZE <= usize::MAX,
        ensures
            vm@ == initial_state(
                digest::hprime_bytes(448, rom_digest.0@ + salt@),
                nb_instrs as nat,
            ),
            vm.wf(),
            vm@.prog_digest.len() == 64,
            vm@.mem_digest.len() == 64,
    {
        let mut init_buffer: [u8; INIT_SIZE] = [0u8; INIT_SIZE];
        let mut init_buffer_input: Vec<u8> = Vec::new();
        init_buffer_input.extend_from_slice(&rom_digest.0);
        init_buffer_input.extend_from_slice(salt);
        assert(init_buffer_input@ =~= rom_digest.0@ + salt@);
        hprime(&mut init_buffer, init_buffer_input.as_slice());
        VM::from_init(&init_buffer, nb_instrs)
    }

    /// Creates a machine from the bytes that it starts from.
    pub fn from_init(init: &[u8; INIT_SIZE], nb_instrs: u32) -> (vm: VM)
        requires
            nb_instrs * INSTR_SIZE <= usize::MAX,
        ensures
            vm@ == initial_state(init@, nb_instrs as nat),
            vm.wf(),
    {
        let mut regs: [u64; NB_REGS] = [0u64; NB_REGS];
        let mut i: usize = 0;
        while i < NB_REGS
            invariant
                i <= 32,
                forall|j: int| 0 <= j < i ==> regs@[j] == bytes::word_at(init@, j),
            decreases 32 - i,
        {
            regs[i] = read_word(init, i);
            i += 1;
        }
        let prog_digest = blake2b_start(&init[256..320]);
        let mem_digest = blake2b_start(&init[320..384]);
        let prog_seed: [u8; 64] = *as_array::<DIGEST_INIT_SIZE>(&init[384..448]);
        let program = Program::new(nb_instrs);
        let vm = VM {
            program,
            regs,
            ip: 0,
            prog_digest,
            mem_digest,
            prog_seed,
            memory_counter: 0,
            loop_counter: 0,
        };
        proof {
            assert(vm@ =~= initial_state(init@, nb_instrs as nat));
        }
        vm
    }

    /// The sum of the registers, counted modulo 2 to the power of 64.
    pub fn sum_regs(&self) -> (sum: u64)
        ensures
            sum == sum_of(self@.regs) % 0x1_0000_0000_0000_0000,
    {
        let mut sum: u64 = 0;
        let mut i: usize = 0;
        while i < NB_REGS
            invariant
                i <= 32,
                sum == sum_of(self.regs@.take(i as int)) % 0x1_0000_0000_0000_0000,
            decreases 32 - i,
        {
            assert(self.regs@.take(i + 1).drop_last() =~= self.regs@.take(i as int));
            sum = sum.wrapping_add(self.regs[i]);
            i += 1;
        }
        assert(self.regs@.take(32) =~= self.regs@);
        sum
    }

    /// Reads a source operand.
    pub fn fetch(&mut self, rom: &Rom, kind: Operand, r: u8, lit: u64) -> (value: u64)
        requires
            old(self).wf(),
            rom.wf(),
            r < NB_REGS,
            kind == Operand::Memory ==> old(self)@.mem_digest.len() + 64 <= u64::MAX,
        ensures
            final(self).wf(),
            value == operand_value(old(self)@, rom.data@, kind, r, lit),
            final(self)@ == after_operand(old(self)@, rom.data@, kind, lit),
    {
        match kind {
            Operand::Reg => self.regs[r as usize],
            Operand::Memory => {
                let line = rom.at((lit % 0x1_0000_0000) as u32);
                blake2b_update(&mut self.mem_digest, line);
                let index: usize = (self.memory_counter % 8) as usize;
                self.memory_counter = self.memory_counter.wrapping_add(1);
                read_word(line, index)
            },
            Operand::Literal => lit,
            Operand::Special1 => special(&self.prog_digest),
            Operand::Special2 => special(&self.mem_digest),
        }
    }

    /// Executes the instruction at the instruction pointer and moves the pointer on.
    pub fn step(&mut self, rom: &Rom)
        requires
            old(self).wf(),
            rom.wf(),
            old(self)@.program.len() >= INSTR_SIZE,
            old(self)@.prog_digest.len() + INSTR_SIZE <= u64::MAX,
            old(self)@.mem_digest.len() + 64 * reads_next(old(self)@) <= u64::MAX,
        ensures
            final(self).wf(),
            final(self)@ == after_step(old(self)@, rom.data@),
    {
        execute_one_instruction(self, rom);
        self.ip = self.ip.wrapping_add(1);
    }

    /// Ends a run of the program: both running digests take in the sum of the registers, and what
    /// they amount to is mixed into the registers and seeds the next program.
    pub fn post_instructions(&mut self)
        requires
            old(self).wf(),
            old(self)@.prog_digest.len() + REGISTER_SIZE <= u64::MAX,
            old(self)@.mem_digest.len() + REGISTER_SIZE <= u64::MAX,
        ensures
            final(self).wf(),
            final(self)@ == after_post_instructions(old(self)@),
    {
        let ghost before = self@;
        let sum_regs: u64 = self.sum_regs();
        let sum_bytes = u64_to_le(sum_regs);
        blake2b_update(&mut self.prog_digest, &sum_bytes);
        let prog_value = blake2b_finalize(blake2b_clone(&self.prog_digest));
        blake2b_update(&mut self.mem_digest, &sum_bytes);
        let mem_value = blake2b_finalize(blake2b_clone(&self.mem_digest));

        let mut context = blake2b_start(&prog_value);
        blake2b_update(&mut context, &mem_value);
        blake2b_update(&mut context, &u32_to_le(self.loop_counter));
        let mixing_value = blake2b_finalize(context);
        let mut mixing_out: Vec<u8> = vec![0u8; MIXING_SIZE];
        hprime(mixing_out.as_mut_slice(), &mixing_value);

        mix_registers(&mut self.regs, mixing_out.as_slice());

        self.prog_seed = prog_value;
        self.loop_counter = self.loop_counter.wrapping_add(1);
        assert(self@ =~= after_post_instructions(before));
    }

    /// Runs one loop: expands the program seed into a new program, executes `instr` steps of it
    /// and ends the run.
    pub fn execute(&mut self, rom: &Rom, instr: u32)
        requires
            old(self).wf(),
            rom.wf(),
            old(self)@.program.len() >= INSTR_SIZE,
            old(self)@.prog_digest.len() + INSTR_SIZE * instr + REGISTER_SIZE <= u64::MAX,
            old(self)@.mem_digest.len() + 128 * instr + REGISTER_SIZE <= u64::MAX,
        ensures
            final(self).wf(),
            final(self)@ == after_execute(old(self)@, rom.data@, instr as nat),
            final(self)@.program.len() == old(self)@.program.len(),
            final(self)@.prog_digest.len() == old(self)@.prog_digest.len() + INSTR_SIZE * instr
                + REGISTER_SIZE,
            final(self)@.mem_digest.len() <= old(self)@.mem_digest.len() + 128 * instr
                + REGISTER_SIZE,
    {
        self.program.shuffle(&self.prog_seed);
        let ghost start = self@;
        assert(start =~= after_shuffle(old(self)@));
        let mut i: u32 = 0;
        while i < instr
            invariant
                i <= instr,
                self.wf(),
                rom.wf(),
                start.program.len() >= INSTR_SIZE,
                start.regs.len() == NB_REGS,
                start.prog_digest.len() + INSTR_SIZE * instr + REGISTER_SIZE <= u64::MAX,
                start.mem_digest.len() + 128 * instr + REGISTER_SIZE <= u64::MAX,
                self@ == after_steps(start, rom.data@, i as nat),
            decreases instr - i,
        {
            proof {
                lemma_steps_shape(start, rom.data@, i as nat);
            }
            self.step(rom);
            i += 1;
        }
        proof {
            lemma_steps_shape(start, rom.data@, instr as nat);
            let end = after_steps(start, rom.data@, instr as nat);
            bytes::lemma_le_bytes_len(sum_of(end.regs) % 0x1_0000_0000_0000_0000, 8);
        }
        self.post_instructions();
    }

    /// Ends the computation and returns its result.
    pub fn finalize(self) -> (result: [u8; 64])
        requires
            self.wf(),
        ensures
            result@ == machine_result(self@),
    {
        let ghost s = self@;
        let prog_digest = blake2b_finalize(self.prog_digest);
        let mem_digest = blake2b_finalize(self.mem_digest);
        let mut context = blake2b_start(&prog_digest);
        blake2b_update(&mut context, &mem_digest);
        blake2b_update(&mut context, &u32_to_le(self.memory_counter));
        let ghost head = digest::absorbed(context);
        proof {
            bytes::lemma_le_bytes_len(s.memory_counter as nat, 4);
            assert(s.regs.take(0) =~= Seq::empty());
            assert(head + register_bytes(s.regs.take(0)) =~= head);
        }
        let mut i: usize = 0;
        while i < NB_REGS
            invariant
                i <= 32,
                s.regs == self.regs@,
                head.len() == 132,
                digest::absorbed(context) == head + register_bytes(s.regs.take(i as int)),
                digest::absorbed(context).len() == 132 + 8 * i,
            decreases 32 - i,
        {
            blake2b_update(&mut context, &u64_to_le(self.regs[i]));
            proof {
                bytes::lemma_le_bytes_len(self.regs@[i as int] as nat, 8);
                assert(s.regs.take(i + 1).drop_last() =~= s.regs.take(i as int));
                assert(digest::absorbed(context) =~= head + register_bytes(
                    s.regs.take(i + 1),
                ));
            }
            i += 1;
        }
        assert(s.regs.take(32) =~= s.regs);
        blake2b_finalize(context)
    }

    /// A listing of the registers, four to a line, and of the instruction pointer.
    pub fn debug(&self) -> (text: String)
        ensures
            text@ == listing(self@.regs) + seq!['i', 'p', ' '] + hex::hex(
                self@.ip as nat,
                8,
            ) + seq![
                '\n',
            ],
    {
        let mut out = String::new();
        let mut i: usize = 0;
        assert(self.regs@.take(0) =~= Seq::empty());
        assert(out@ =~= listing(self.regs@.take(0)));
        while i < NB_REGS
            invariant
                i <= 32,
                out@ == listing(self.regs@.take(i as int)),
            decreases 32 - i,
        {
            let ghost before = out@;
            out.push('[');
            push_hex(&mut out, i as u64, 2);
            out.push(']');
            out.push(' ');
            push_hex(&mut out, self.regs[i], 16);
            out.push(' ');
            if i % 4 == 3 {
                out.push('\n');
            }
            proof {
                let listed = self.regs@.take(i + 1);
                assert(listed.drop_last() =~= self.regs@.take(i as int));
                assert(listed.last() == self.regs@[i as int]);
                assert(out@ =~= before + register_entry(i as int, self.regs@[i as int]));
            }
            i += 1;
        }
        assert(self.regs@.take(32) =~= self.regs@);
        out.push('i');
        out.push('p');
        out.push(' ');
        push_hex(&mut out, self.ip as u64, 8);
        out.push('\n');
        out
    }
}

/// The special value that a running digest gives.
pub fn special(context: &Context<512>) -> (value: u64)
    requires
        digest::absorbed(*context).len() <= u64::MAX,
    ensures
        value == special_value(digest::absorbed(*context)),
{
    let digest = blake2b_finalize(blake2b_clone(context));
    read_word(&digest, 0)
}

/// Combines the 32 rounds of words of `mixing` into the registers.
pub fn mix_registers(regs: &mut [u64; NB_REGS], mixing: &[u8])
    requires
        mixing@.len() == MIXING_SIZE,
    ensures
        final(regs)@ == mixed_registers(old(regs)@, mixing@),
{
    let ghost before = regs@;
    let mut round: usize = 0;
    while round < 32
        invariant
            round <= 32,
            mixing@.len() == 8192,
            forall|j: int|
                0 <= j < 32 ==> regs@[j] == mixed_register(before[j], mixing@, j, round as nat),
        decreases 32 - round,
    {
        let mut i: usize = 0;
        while i < NB_REGS
            invariant
                i <= 32,
                round < 32,
                mixing@.len() == 8192,
                forall|j: int|
                    0 <= j < i ==> regs@[j] == mixed_register(
                        before[j],
                        mixing@,
                        j,
                        (round + 1) as nat,
                    ),
                forall|j: int|
                    i <= j < 32 ==> regs@[j] == mixed_register(
                        before[j],
                        mixing@,
                        j,
                        round as nat,
                    ),
            decreases 32 - i,
        {
            regs[i] = regs[i] ^ read_word(mixing, 32 * round + i);
            i += 1;
        }
        round += 1;
    }
    assert(regs@ =~= mixed_registers(before, mixing@));
}

/// Executes the instruction at the instruction pointer.
pub fn execute_one_instruction(vm: &mut VM, rom: &Rom)
    requires
        old(vm).wf(),
        rom.wf(),
        old(vm)@.program.len() >= INSTR_SIZE,
        old(vm)@.prog_digest.len() + INSTR_SIZE <= u64::MAX,
        old(vm)@.mem_digest.len() + 64 * reads_next(old(vm)@) <= u64::MAX,
    ensures
        final(vm).wf(),
        final(vm)@ == after_instruction(old(vm)@, rom.data@),
{
    let ghost before = vm@;
    let prog_chunk: [u8; INSTR_SIZE] = *vm.program.at(vm.ip);
    let instruction = decode_instruction(&prog_chunk);

    match instruction.opcode {
        Instr::Op3(operator) => {
            let src1: u64 = vm.fetch(rom, instruction.op1, instruction.r1, instruction.lit1);
            let src2: u64 = vm.fetch(rom, instruction.op2, instruction.r2, instruction.lit2);
            let divides = match operator {
                Op3::Div => true,
                Op3::Mod => true,
                _ => false,
            };
            let special1: u64 = if divides && src2 == 0 {
                special(&vm.prog_digest)
            } else {
                0
            };
            let digest: [u8; 64] = match operator {
                Op3::Hash(_) => {
                    let mut context = blake2b_start(&u64_to_le(src1));
                    blake2b_update(&mut context, &u64_to_le(src2));
                    blake2b_finalize(context)
                },
                _ => [0u8; 64],
            };
            vm.regs[instruction.r3 as usize] = execute_op3(
                operator,
                src1,
                src2,
                special1,
                &digest,
            );
        },
        Instr::Op2(operator) => {
            let src1: u64 = vm.fetch(rom, instruction.op1, instruction.r1, instruction.lit1);
            vm.regs[instruction.r3 as usize] = execute_op2(operator, src1);
        },
    }
    assert(vm@ =~= after_operation(
        before,
        rom.data@,
        instruction::decoded(prog_chunk@),
    ));
    blake2b_update(&mut vm.prog_digest, &prog_chunk);
}

/// A step keeps the program and its seed, the number of registers and the loop counter; the
/// program digest takes in one instruction, and the memory digest at most two lines.
proof fn lemma_step_shape(s: State, rom: Seq<u8>)
    requires
        s.program.len() >= 20,
        s.regs.len() == 32,
        rom.len() >= 64,
    ensures
        after_step(s, rom).program == s.program,
        after_step(s, rom).prog_seed == s.prog_seed,
        after_step(s, rom).loop_counter == s.loop_counter,
        after_step(s, rom).regs.len() == 32,
        after_step(s, rom).prog_digest.len() == s.prog_digest.len() + 20,
        s.mem_digest.len() <= after_step(s, rom).mem_digest.len() <= s.mem_digest.len() + 128,
{
}

/// What [`lemma_step_shape`] says of one step, for `n` steps.
proof fn lemma_steps_shape(s: State, rom: Seq<u8>, n: nat)
    requires
        s.program.len() >= 20,
        s.regs.len() == 32,
        rom.len() >= 64,
    ensures
        after_steps(s, rom, n).program == s.program,
        after_steps(s, rom, n).prog_seed == s.prog_seed,
        after_steps(s, rom, n).loop_counter == s.loop_counter,
        after_steps(s, rom, n).regs.len() == 32,
        after_steps(s, rom, n).prog_digest.len() == s.prog_digest.len() + 20 * n,
        s.mem_digest.len() <= after_steps(s, rom, n).mem_digest.len() <= s.mem_digest.len() + 128
            * n,
    decreases n,
{
    if n > 0 {
        lemma_steps_shape(s, rom, (n - 1) as nat);
        lemma_step_shape(after_steps(s, rom, (n - 1) as nat), rom);
    }
}

} // verus!
