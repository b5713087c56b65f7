use ashmaize::instruction::{Operand, INSTR_SIZE};
use ashmaize::rom::RomDigest;
use ashmaize::vm::{execute_one_instruction, mix_registers, special};
use ashmaize::{hash, Program, Rom, RomGenerationType, VM};
use cryptoxide::hashing::blake2b::Blake2b;
use cryptoxide::kdf::argon2;

fn memory() -> Rom {
    Rom::new(b"memory", RomGenerationType::FullRandom, 1024)
}

/// Register `i` starts at `i + 1`, and the program is the given code.
fn machine(code: &[[u8; INSTR_SIZE]]) -> VM {
    let mut init = [0u8; 448];
    for i in 0..32 {
        init[8 * i] = i as u8 + 1;
    }
    init[256..320].fill(0xaa);
    init[320..384].fill(0xbb);
    init[384..].fill(0xcc);
    let mut vm = VM::from_init(&init, code.len() as u32);
    vm.program.instructions = code.concat();
    vm
}

fn code(opcode: u8, kinds: u8, r: [u16; 3], lit1: u64, lit2: u64) -> [u8; INSTR_SIZE] {
    let packed = r[0] * 1024 + r[1] * 32 + r[2];
    let mut out = [0u8; INSTR_SIZE];
    out[0] = opcode;
    out[1] = kinds;
    out[2..4].copy_from_slice(&packed.to_be_bytes());
    out[4..12].copy_from_slice(&lit1.to_le_bytes());
    out[12..].copy_from_slice(&lit2.to_le_bytes());
    out
}

fn blake2b(parts: &[&[u8]]) -> [u8; 64] {
    let mut context = Blake2b::<512>::new();
    for part in parts {
        context.update_mut(part);
    }
    context.finalize()
}

fn word(bytes: &[u8], i: usize) -> u64 {
    let mut out = [0u8; 8];
    out.copy_from_slice(&bytes[8 * i..8 * i + 8]);
    u64::from_le_bytes(out)
}

#[test]
fn blank_program_wraps() {
    let mut program = Program::new(3);
    assert_eq!(program.instructions, vec![0u8; 60]);
    program.instructions = (0u8..60).collect();
    assert_eq!(program.at(1)[0], 20);
    assert_eq!(program.at(2)[19], 59);
    assert_eq!(program.at(4), program.at(1));
    // 4294967295 is a multiple of 3
    assert_eq!(program.at(u32::MAX), program.at(0));
}

#[test]
fn shuffled_program_is_the_expanded_seed() {
    let mut program = Program::new(4);
    let seed = [9u8; 64];
    program.shuffle(&seed);
    let mut expected = vec![0u8; 80];
    argon2::hprime(&mut expected, &seed);
    assert_eq!(program.instructions, expected);
}

#[test]
fn machine_starts_from_memory_digest_and_salt() {
    let rom = memory();
    let vm = VM::new(&rom.digest, 5, b"salt");
    let mut init = vec![0u8; 448];
    argon2::hprime(&mut init, &[&rom.digest.0[..], b"salt"].concat());
    for i in 0..32 {
        assert_eq!(vm.regs[i], word(&init, i));
    }
    assert_eq!(vm.prog_digest.clone().finalize(), blake2b(&[&init[256..320]]));
    assert_eq!(vm.mem_digest.clone().finalize(), blake2b(&[&init[320..384]]));
    assert_eq!(vm.prog_seed.to_vec(), init[384..].to_vec());
    assert_eq!(vm.program.instructions, vec![0u8; 100]);
    assert_eq!((vm.ip, vm.memory_counter, vm.loop_counter), (0, 0, 0));

    let other = VM::new(&RomDigest([0; 64]), 5, b"salt");
    assert_ne!(vm.regs, other.regs);
}

#[test]
fn step_writes_one_register() {
    // r7 = r4 + r9
    let add = code(0, 0x00, [4, 9, 7], 0, 0);
    let mut vm = machine(&[add]);
    vm.step(&memory());
    let mut expected: Vec<u64> = (1..=32).collect();
    expected[7] = 5 + 10;
    assert_eq!(vm.regs.to_vec(), expected);
    assert_eq!((vm.ip, vm.memory_counter, vm.loop_counter), (1, 0, 0));
    assert_eq!(vm.prog_digest.clone().finalize(), blake2b(&[&[0xaa; 64], &add]));
    assert_eq!(vm.mem_digest.clone().finalize(), blake2b(&[&[0xbb; 64]]));
    assert_eq!(vm.prog_seed, [0xcc; 64]);
}

#[test]
fn instruction_pointer_wraps() {
    let mut vm = machine(&[code(0, 0x88, [0, 0, 3], 20, 22)]);
    vm.ip = u32::MAX;
    vm.step(&memory());
    assert_eq!(vm.ip, 0);
    assert_eq!(vm.regs[3], 42);
}

#[test]
fn one_instruction_leaves_the_pointer() {
    let mut vm = machine(&[code(0, 0x88, [0, 0, 3], 20, 22)]);
    execute_one_instruction(&mut vm, &memory());
    assert_eq!(vm.ip, 0);
    assert_eq!(vm.regs[3], 42);
}

#[test]
fn memory_operands() {
    let rom = memory();
    // r1 = line 5 xor line 18, which is line 2 of 16
    let xor = code(148, 0x44, [0, 0, 1], 0xffff_ffff_0000_0005, 18);
    let mut vm = machine(&[xor]);
    vm.memory_counter = 7;
    vm.step(&rom);
    let first = &rom.data[5 * 64..6 * 64];
    let second = &rom.data[2 * 64..3 * 64];
    // word 7 of the first line, then word 0 of the second one
    assert_eq!(vm.regs[1], word(first, 7) ^ word(second, 0));
    assert_eq!(vm.memory_counter, 9);
    assert_eq!(vm.mem_digest.clone().finalize(), blake2b(&[&[0xbb; 64], first, second]));
}

#[test]
fn memory_words_in_turn() {
    let rom = memory();
    let mut vm = machine(&[code(0, 0, [0, 0, 0], 0, 0)]);
    vm.memory_counter = u32::MAX - 7;
    for i in 0..16 {
        let value = vm.fetch(&rom, Operand::Memory, 0, 3);
        assert_eq!(value, word(&rom.data[192..256], i % 8));
    }
    assert_eq!(vm.memory_counter, 8);
}

#[test]
fn other_operands_leave_no_trace() {
    let rom = memory();
    let mut vm = machine(&[code(0, 0, [0, 0, 0], 0, 0)]);
    assert_eq!(vm.fetch(&rom, Operand::Reg, 30, 7), 31);
    assert_eq!(vm.fetch(&rom, Operand::Literal, 30, 7), 7);
    assert_eq!(vm.fetch(&rom, Operand::Special1, 30, 7), word(&blake2b(&[&[0xaa; 64]]), 0));
    assert_eq!(vm.fetch(&rom, Operand::Special2, 30, 7), word(&blake2b(&[&[0xbb; 64]]), 0));
    assert_eq!(vm.memory_counter, 0);
    assert_eq!(vm.mem_digest.clone().finalize(), blake2b(&[&[0xbb; 64]]));
}

#[test]
fn single_source_instruction_reads_one_operand() {
    // r2 = isqrt(26), though the second operand kind is the memory
    let mut vm = machine(&[code(128, 0x84, [0, 0, 2], 26, 0)]);
    vm.step(&memory());
    assert_eq!(vm.regs[2], 5);
    assert_eq!(vm.memory_counter, 0);
}

#[test]
fn division_by_zero_uses_the_special_value() {
    let mut vm = machine(&[code(96, 0x88, [0, 0, 2], u64::MAX, 0)]);
    vm.step(&memory());
    assert_eq!(vm.regs[2], u64::MAX / word(&blake2b(&[&[0xaa; 64]]), 0));
}

#[test]
fn hash_instruction_selects_a_word() {
    let mut vm = machine(&[code(253, 0x88, [0, 0, 2], 3, 4)]);
    vm.step(&memory());
    let digest = blake2b(&[&3u64.to_le_bytes(), &4u64.to_le_bytes()]);
    assert_eq!(vm.regs[2], word(&digest, 5));
}

#[test]
fn special_value_of_a_known_digest() {
    // the BLAKE2b digest of "abc" starts with ba 80 a5 3f 98 1c 4d 0d
    let mut context = Blake2b::<512>::new();
    context.update_mut(b"abc");
    assert_eq!(special(&context), 0x0d4d_1c98_3fa5_80ba);
    assert_eq!(special(&context), 0x0d4d_1c98_3fa5_80ba);
}

#[test]
fn register_sum_wraps() {
    let mut vm = machine(&[code(0, 0, [0, 0, 0], 0, 0)]);
    assert_eq!(vm.sum_regs(), 528);
    vm.regs[31] = u64::MAX;
    assert_eq!(vm.sum_regs(), 495);
}

#[test]
fn mixing_undoes_itself() {
    let mut mixing = vec![0u8; 8192];
    // word 3 of the first round, and word 3 of the last round
    mixing[24] = 0b0110;
    mixing[8192 - 256 + 24] = 0b1100;
    let mut regs = [1u64; 32];
    mix_registers(&mut regs, &mixing);
    let mut expected = [1u64; 32];
    expected[3] = 1 ^ 0b0110 ^ 0b1100;
    assert_eq!(regs, expected);
    mix_registers(&mut regs, &mixing);
    assert_eq!(regs, [1u64; 32]);
}

#[test]
fn end_of_a_run() {
    let mut vm = machine(&[code(0, 0, [0, 0, 0], 0, 0)]);
    vm.loop_counter = u32::MAX;
    vm.post_instructions();
    let sum = 528u64.to_le_bytes();
    let prog_value = blake2b(&[&[0xaa; 64], &sum]);
    let mem_value = blake2b(&[&[0xbb; 64], &sum]);
    let mixing_value = blake2b(&[&prog_value, &mem_value, &u32::MAX.to_le_bytes()]);
    let mut mixing = vec![0u8; 8192];
    argon2::hprime(&mut mixing, &mixing_value);
    for i in 0..32 {
        let mut expected = i as u64 + 1;
        for round in 0..32 {
            expected ^= word(&mixing, 32 * round + i);
        }
        assert_eq!(vm.regs[i], expected);
    }
    assert_eq!(vm.prog_seed, prog_value);
    assert_eq!(vm.prog_digest.clone().finalize(), prog_value);
    assert_eq!(vm.mem_digest.clone().finalize(), mem_value);
    assert_eq!(vm.loop_counter, 0);
}

#[test]
fn result_of_a_machine() {
    let mut vm = machine(&[code(0, 0, [0, 0, 0], 0, 0)]);
    vm.memory_counter = 0x0102_0304;
    let mut message: Vec<u8> = Vec::new();
    message.extend(blake2b(&[&[0xaa; 64]]));
    message.extend(blake2b(&[&[0xbb; 64]]));
    message.extend([4u8, 3, 2, 1]);
    for r in vm.regs {
        message.extend(r.to_le_bytes());
    }
    assert_eq!(vm.finalize(), blake2b(&[&message]));
}

#[test]
fn loops_count_on() {
    let rom = memory();
    let mut vm = VM::new(&rom.digest, 128, b"salt");
    vm.execute(&rom, 128);
    assert_eq!((vm.ip, vm.loop_counter), (128, 1));
    vm.execute(&rom, 128);
    assert_eq!((vm.ip, vm.loop_counter), (256, 2));
    assert_eq!(vm.program.instructions.len(), 2560);
    assert_eq!(vm.finalize(), hash(b"salt", &rom, 2, 128));
}

#[test]
fn loop_is_shuffle_steps_and_end() {
    let rom = memory();
    let mut whole = VM::new(&rom.digest, 10, b"salt");
    whole.execute(&rom, 25);

    let mut parts = VM::new(&rom.digest, 10, b"salt");
    // the program before the loop does not matter
    parts.program.instructions = vec![0x5a; 200];
    let seed = parts.prog_seed;
    parts.program.shuffle(&seed);
    for _ in 0..25 {
        parts.step(&rom);
    }
    parts.post_instructions();
    assert_eq!(whole.regs, parts.regs);
    assert_eq!(whole.finalize(), parts.finalize());
}

#[test]
fn listing_of_a_machine() {
    let mut vm = machine(&[code(0, 0, [0, 0, 0], 0, 0)]);
    vm.regs[10] = 0xdead_beef_0bad_f00d;
    vm.ip = 0x1f;
    let text = vm.debug();
    let lines: Vec<&str> = text.split('\n').collect();
    assert_eq!(lines.len(), 10);
    assert_eq!(
        lines[0],
        "[00] 0000000000000001 [01] 0000000000000002 [02] 0000000000000003 [03] 0000000000000004 "
    );
    assert_eq!(
        lines[2],
        "[08] 0000000000000009 [09] 000000000000000a [0a] deadbeef0badf00d [0b] 000000000000000c "
    );
    assert_eq!(lines[8], "ip 0000001f");
    assert_eq!(lines[9], "");
}

#[test]
fn result_depends_on_every_part() {
    let blank = code(0, 0, [0, 0, 0], 0, 0);
    let base = machine(&[blank]).finalize();
    for i in 0..32 {
        let mut vm = machine(&[blank]);
        vm.regs[i] ^= 1 << i;
        assert_ne!(vm.finalize(), base);
    }
    let mut counted = machine(&[blank]);
    counted.memory_counter = 1;
    assert_ne!(counted.finalize(), base);
    let mut absorbed = machine(&[blank]);
    absorbed.mem_digest.update_mut(&[0]);
    assert_ne!(absorbed.finalize(), base);
}

#[test]
fn memory_digest_and_salt_are_kept_apart() {
    let mut digest = [0u8; 64];
    digest[63] = b'x';
    let first = VM::new(&RomDigest(digest), 1, b"yz");
    let second = VM::new(&RomDigest([0; 64]), 1, b"xyz");
    assert_ne!(first.regs, second.regs);
}

/// The registers, the digests and the counter of accesses after the first instruction.
fn after_one(code: [u8; INSTR_SIZE]) -> (Vec<u64>, [u8; 64], u32) {
    let mut vm = machine(&[code]);
    execute_one_instruction(&mut vm, &memory());
    (vm.regs.to_vec(), vm.mem_digest.clone().finalize(), vm.memory_counter)
}

#[test]
fn product_halves_in_registers() {
    let (a, b) = (0xfedc_ba98_7654_3210u64, 0xffff_ffff_ffff_fff1u64);
    let low = after_one(code(40, 0x88, [0, 0, 9], a, b)).0[9];
    let high = after_one(code(80, 0x88, [0, 0, 9], a, b)).0[9];
    let sum = after_one(code(0, 0x88, [0, 0, 9], a, b)).0[9];
    assert_eq!(((high as u128) << 64) + low as u128, a as u128 * b as u128);
    assert_eq!(sum, 0xfedc_ba98_7654_3201);
    // r4 is 5 and r9 is 10
    assert_eq!(after_one(code(40, 0x00, [4, 9, 7], 0, 0)).0[7], 50);
    assert_eq!(after_one(code(80, 0x00, [4, 9, 7], 0, 0)).0[7], 0);
}

#[test]
fn rotating_instructions_undo_each_other() {
    // r3 = the literal rotated up by 69, then r4 = r3 rotated down by 69
    let value = 0x8000_0000_0000_0001;
    let up = code(188, 0x88, [0, 0, 3], value, 69);
    let down = code(204, 0x08, [3, 0, 4], 0, 69);
    let mut vm = machine(&[up, down]);
    vm.step(&memory());
    assert_eq!(vm.regs[3], 0b11_0000);
    vm.step(&memory());
    assert_eq!(vm.regs[4], value);
}

#[test]
fn one_source_ignores_the_second_operand() {
    for opcode in [128u8, 138, 220] {
        for kind in [0x00u8, 0x40, 0x80, 0xc0, 0xf0] {
            let base = after_one(code(opcode, kind, [6, 0, 2], 26, 0));
            for other in [0x04u8, 0x08, 0x0c, 0x0f] {
                let mut second = code(opcode, kind | other, [6, 31, 2], 26, u64::MAX);
                assert_eq!(after_one(second), base);
                second[2] |= 0x80;
                assert_eq!(after_one(second), base);
            }
        }
    }
}

#[test]
fn steps_count_memory_reads() {
    // two accesses, then none, then one
    let program = [
        code(0, 0x44, [0, 0, 1], 3, 4),
        code(0, 0x08, [0, 0, 1], 3, 4),
        code(128, 0x44, [0, 0, 1], 3, 4),
    ];
    let mut vm = machine(&program);
    vm.memory_counter = u32::MAX;
    for expected in [1, 1, 2, 4, 4, 5] {
        vm.step(&memory());
        assert_eq!(vm.memory_counter, expected);
    }
}

#[test]
fn executions_of_any_length_count_on() {
    let rom = memory();
    let mut vm = VM::new(&rom.digest, 10, b"salt");
    let mut total = 0;
    for (k, length) in [3u32, 0, 25, 1].into_iter().enumerate() {
        let mut program = vec![0u8; 200];
        argon2::hprime(&mut program, &vm.prog_seed);
        let reads = vm.memory_counter;
        vm.execute(&rom, length);
        total += length;
        assert_eq!((vm.ip, vm.loop_counter), (total, k as u32 + 1));
        assert_eq!(vm.program.instructions, program);
        assert_eq!(vm.prog_seed, vm.prog_digest.clone().finalize());
        assert!(vm.memory_counter - reads <= 2 * length);
    }
    vm.ip = u32::MAX;
    vm.loop_counter = u32::MAX;
    vm.execute(&rom, 2);
    assert_eq!((vm.ip, vm.loop_counter), (1, 0));
}

#[test]
fn mixing_sees_only_the_register_sum() {
    let blank = code(0, 0, [0, 0, 0], 0, 0);
    let mut first = machine(&[blank]);
    let mut second = machine(&[blank]);
    second.regs[5] = second.regs[5].wrapping_sub(100);
    second.regs[20] += 100;
    let (before1, before2) = (first.regs, second.regs);
    first.post_instructions();
    second.post_instructions();
    for j in 0..32 {
        assert_eq!(first.regs[j] ^ before1[j], second.regs[j] ^ before2[j]);
    }
    assert_eq!(first.prog_seed, second.prog_seed);
    assert_eq!(first.mem_digest.clone().finalize(), second.mem_digest.clone().finalize());
}
