use ashmaize::rom::{
    assemble, assemble_line, digest_to_u16s, generation_base, generation_offsets, random_gen,
    xorbuf, RomDigest,
};
use ashmaize::{Rom, RomGenerationType};
use cryptoxide::hashing::blake2b::Blake2b;
use cryptoxide::kdf::argon2;

#[test]
fn rom_random_distribution() {
    let mut distribution = [0; 256];

    const SIZE: usize = 10 * 1_024 * 1_024;

    let rom = Rom::new(
        b"password",
        RomGenerationType::TwoStep {
            pre_size: 256 * 1024,
            mixing_numbers: 4,
        },
        SIZE,
    );

    for byte in rom.data {
        let index = byte as usize;
        distribution[index] += 1;
    }

    const R: usize = 3; // expect 3% range difference with the perfect average
    const AVG: usize = SIZE / 256;
    const MIN: usize = AVG * (100 - R) / 100;
    const MAX: usize = AVG * (100 + R) / 100;

    assert!(distribution
        .iter()
        .take(u8::MAX as usize)
        .all(|&count| count > MIN && count < MAX));
}

fn two_step(pre_size: usize, mixing_numbers: usize) -> RomGenerationType {
    RomGenerationType::TwoStep {
        pre_size,
        mixing_numbers,
    }
}

fn blake2b(parts: &[&[u8]]) -> [u8; 64] {
    let mut context = Blake2b::<512>::new();
    for part in parts {
        context.update_mut(part);
    }
    context.finalize()
}

fn expand(len: usize, input: &[u8]) -> Vec<u8> {
    let mut out = vec![0; len];
    argon2::hprime(&mut out, input);
    out
}

#[test]
fn full_random_memory_is_the_expanded_seed() {
    let rom = Rom::new(b"a key", RomGenerationType::FullRandom, 640);
    let seed = blake2b(&[&640u32.to_le_bytes(), b"a key"]);
    assert_eq!(rom.data, expand(640, &seed));
    assert_eq!(rom.digest.0, blake2b(&[&rom.data]));
}

#[test]
fn two_step_memory_is_combined_line_by_line() {
    let size = 64 * 50;
    let seed = blake2b(&[&(size as u32).to_le_bytes(), b"a key"]);
    let pre_rom = expand(192, &seed);
    let mut diffs: Vec<usize> = Vec::new();
    for i in 0u32..4 {
        let digest = blake2b(&[&seed, b"generation offset", &i.to_le_bytes()]);
        for pair in digest.chunks(2) {
            diffs.push(pair[0] as usize + 256 * pair[1] as usize);
        }
    }
    let base = expand(50, &blake2b(&[&seed, b"generation base"]));
    let mut expected = vec![0u8; size];
    for k in 0..size {
        let (line, column) = (k / 64, k % 64);
        expected[k] = pre_rom[64 * (line % 3) + column];
        for d in 1..200 {
            let source = (line + base[line] as usize + diffs[(d - 1) % 128]) % 3;
            expected[k] ^= pre_rom[64 * source + column];
        }
    }

    let rom = Rom::new(b"a key", two_step(192, 200), size);
    assert_eq!(rom.data, expected);
    assert_eq!(rom.digest.0, blake2b(&[&expected]));
}

#[test]
fn generation_from_a_seed() {
    let seed = [7u8; 64];
    let mut output = [0u8; 256];
    let digest: RomDigest = random_gen(RomGenerationType::FullRandom, seed, &mut output);
    assert_eq!(output.to_vec(), expand(256, &seed));
    assert_eq!(digest.0, blake2b(&[&output]));

    let offsets = generation_offsets(&seed);
    assert_eq!(offsets.len(), 128);
    let first = blake2b(&[&seed, b"generation offset", &0u32.to_le_bytes()]);
    let last = blake2b(&[&seed, b"generation offset", &3u32.to_le_bytes()]);
    assert_eq!(offsets[..32].to_vec(), digest_to_u16s(&first));
    assert_eq!(offsets[96..].to_vec(), digest_to_u16s(&last));

    let base = generation_base(&seed, 100);
    assert_eq!(base, expand(100, &blake2b(&[&seed, b"generation base"])));
}

#[test]
fn same_inputs_give_the_same_memory() {
    let first = Rom::new(b"key", two_step(128, 4), 1024);
    let second = Rom::new(b"key", two_step(128, 4), 1024);
    assert_eq!(first.data, second.data);
    assert_eq!(first.digest.0, second.digest.0);
    assert_ne!(first.data, Rom::new(b"kez", two_step(128, 4), 1024).data);
}

#[test]
fn accepted_sizes() {
    let full = RomGenerationType::FullRandom;
    assert!(full.accepts(64));
    assert!(full.accepts(10_240));
    assert!(full.accepts(0xffff_ffc0));
    assert!(!full.accepts(0));
    assert!(!full.accepts(63));
    assert!(!full.accepts(100));
    assert!(!full.accepts(0x1_0000_0000));
    assert!(two_step(64, 1).accepts(64));
    assert!(two_step(192, 4).accepts(4096));
    assert!(!two_step(128, 4).accepts(64));
    assert!(!two_step(0, 4).accepts(64));
    assert!(!two_step(96, 4).accepts(128));
    assert!(!two_step(64, 0).accepts(128));
    assert!(!two_step(64, 4).accepts(100));
}

#[test]
fn line_index_wraps() {
    let rom = Rom::new(b"k", RomGenerationType::FullRandom, 192);
    assert_eq!(rom.at(0).to_vec(), rom.data[..64].to_vec());
    assert_eq!(rom.at(2).to_vec(), rom.data[128..].to_vec());
    assert_eq!(rom.at(3), rom.at(0));
    // 4294967295 is a multiple of 3
    assert_eq!(rom.at(u32::MAX), rom.at(0));
}

#[test]
fn numbers_of_a_digest() {
    let mut digest = [0u8; 64];
    digest[0] = 0x34;
    digest[1] = 0x12;
    digest[62] = 0xff;
    digest[63] = 0x01;
    let numbers = digest_to_u16s(&digest);
    assert_eq!(numbers.len(), 32);
    assert_eq!(numbers[0], 0x1234);
    assert_eq!(numbers[1], 0);
    assert_eq!(numbers[31], 0x01ff);
}

#[test]
fn xor_twice_changes_nothing() {
    let mut out = [0b1010u8, 0xff, 0];
    xorbuf(&mut out, &[0b0110, 0x0f, 7]);
    assert_eq!(out, [0b1100, 0xf0, 7]);
    xorbuf(&mut out, &[0b0110, 0x0f, 7]);
    assert_eq!(out, [0b1010, 0xff, 0]);
}

#[test]
fn lines_of_given_sources() {
    let mut pre_rom = vec![1u8; 64];
    pre_rom.extend([2u8; 64]);
    pre_rom.extend([4u8; 64]);
    // line 4 starts from source line 1; the other sources are (4 + 1 + 0) % 3 and (4 + 1 + 1) % 3
    assert_eq!(assemble_line(&pre_rom, &[0, 1], 1, 4, 1), [2u8; 64]);
    assert_eq!(assemble_line(&pre_rom, &[0, 1], 1, 4, 2), [2u8 ^ 4; 64]);
    assert_eq!(assemble_line(&pre_rom, &[0, 1], 1, 4, 3), [2u8 ^ 4 ^ 1; 64]);
    // the offsets are used again from the first one
    assert_eq!(assemble_line(&pre_rom, &[0, 1], 1, 4, 4), [2u8 ^ 1; 64]);
}

#[test]
fn one_line_per_line_repeats_the_small_memory() {
    let pre_rom: Vec<u8> = (0u8..128).collect();
    let mut output = vec![0u8; 320];
    assemble(&pre_rom, &[9, 5], &[3, 1, 4, 1, 5], 1, &mut output);
    for k in 0..320 {
        assert_eq!(output[k], pre_rom[k % 128]);
    }
}

fn generated(mixing_numbers: usize) -> (Vec<u8>, [u8; 64]) {
    let mut output = vec![0u8; 64 * 20];
    let digest = random_gen(two_step(320, mixing_numbers), [7; 64], &mut output);
    (output, digest.0)
}

#[test]
fn mixing_numbers_repeat() {
    assert_eq!(generated(1), generated(257));
    assert_eq!(generated(4), generated(260));
    assert_ne!(generated(4), generated(132));
}

#[test]
fn one_more_mixing_number_adds_one_line() {
    let pre_rom = expand(320, &[7; 64]);
    for mixing_numbers in [1, 4, 128, 200] {
        let less = generated(mixing_numbers).0;
        let more = generated(mixing_numbers + 1).0;
        for i in 0..20 {
            let mut line: Vec<u8> = less[64 * i..64 * i + 64].to_vec();
            xorbuf(&mut line, &more[64 * i..64 * i + 64]);
            assert!(pre_rom.chunks(64).any(|source| source == line.as_slice()));
        }
    }
}

#[test]
fn previous_contents_do_not_matter() {
    for gen_type in [RomGenerationType::FullRandom, two_step(128, 4)] {
        let mut first = vec![0u8; 640];
        let mut second = vec![0xa5u8; 640];
        let digest1 = random_gen(gen_type, [3; 64], &mut first);
        let digest2 = random_gen(gen_type, [3; 64], &mut second);
        assert_eq!(first, second);
        assert_eq!(digest1.0, digest2.0);
        assert_eq!(digest1.0, blake2b(&[&first]));
    }
}

#[test]
fn full_random_buffer_of_any_length() {
    for len in [1, 63, 64, 100, 257] {
        let mut output = vec![0u8; len];
        let digest = random_gen(RomGenerationType::FullRandom, [9; 64], &mut output);
        assert_eq!(output, expand(len, &[9; 64]));
        assert_eq!(digest.0, blake2b(&[&output]));
    }
}

#[test]
fn memories_one_mixing_number_apart_differ_by_one_line() {
    let size = 64 * 20;
    let pre_rom = expand(320, &blake2b(&[&(size as u32).to_le_bytes(), b"a key"]));
    let less = Rom::new(b"a key", two_step(320, 4), size);
    let more = Rom::new(b"a key", two_step(320, 5), size);
    for i in 0..20 {
        let mut line = *less.at(i);
        xorbuf(&mut line, more.at(i));
        assert!(pre_rom.chunks(64).any(|source| source == line.as_slice()));
    }
}
