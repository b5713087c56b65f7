use ashmaize::{hash, Rom, RomGenerationType, VM};

#[test]
fn instruction_count_diff() {
    let rom = Rom::new(
        b"password1",
        RomGenerationType::TwoStep {
            pre_size: 1024,
            mixing_numbers: 4,
        },
        10_240,
    );

    let h1 = hash(&0u128.to_be_bytes(), &rom, 8, 256);
    let h2 = hash(&0u128.to_be_bytes(), &rom, 8, 257);

    assert_ne!(h1, h2);
}

#[test]
fn min_size_and_min_instrs() {
    // smallest legal memory (one 64-byte line) plus the minimums
    // (nb_loops = 2, nb_instrs = 128) must run without panicking.
    let rom = Rom::new(b"k", RomGenerationType::FullRandom, 64);
    let a = hash(b"s", &rom, 2, 128);
    let b = hash(b"s", &rom, 2, 128);
    assert_eq!(a, b);
}

#[test]
fn twostep_non_power_of_two_pre_size() {
    // pre_size = 192 (3 * 64) is a multiple of 64 but not a power of two
    let rom = Rom::new(
        b"k",
        RomGenerationType::TwoStep {
            pre_size: 192,
            mixing_numbers: 4,
        },
        64 * 64,
    );
    let a = hash(b"s", &rom, 2, 128);
    let b = hash(b"s", &rom, 2, 128);
    assert_eq!(a, b);
}

#[test]
fn test() {
    const PRE_SIZE: usize = 16 * 1024;
    const SIZE: usize = 10 * 1024 * 1024;
    const NB_INSTR: u32 = 256;

    let rom = Rom::new(
        b"123",
        RomGenerationType::TwoStep {
            pre_size: PRE_SIZE,
            mixing_numbers: 4,
        },
        SIZE,
    );

    let h = hash(b"hello", &rom, 8, NB_INSTR);
    println!("{:?}", h);
}

#[test]
fn test_eq() {
    const PRE_SIZE: usize = 16 * 1024;
    const SIZE: usize = 10 * 1024 * 1024;
    const NB_INSTR: u32 = 256;

    const EXPECTED: [u8; 64] = [
        118, 142, 59, 19, 242, 229, 217, 97, 115, 38, 167, 56, 121, 151, 183, 246, 214, 145,
        208, 104, 222, 217, 220, 208, 73, 247, 247, 175, 107, 193, 179, 137, 99, 168, 68, 177,
        2, 71, 92, 42, 62, 95, 219, 229, 255, 221, 116, 101, 163, 104, 95, 252, 165, 44, 215,
        109, 62, 126, 71, 158, 82, 151, 210, 127,
    ];

    let rom = Rom::new(
        b"123",
        RomGenerationType::TwoStep {
            pre_size: PRE_SIZE,
            mixing_numbers: 4,
        },
        SIZE,
    );

    let h = hash(b"hello", &rom, 8, NB_INSTR);
    assert_eq!(h, EXPECTED);
}

#[test]
fn full_random_digest() {
    let rom = Rom::new(b"seed", RomGenerationType::FullRandom, 16 * 1_024);
    let digest = hash(b"salt", &rom, 8, 256);
    assert_eq!(
        digest,
        [
            42, 210, 239, 12, 214, 251, 233, 4, 197, 100, 95, 113, 166, 237, 111, 169, 32, 5, 72,
            109, 92, 228, 39, 145, 24, 72, 183, 43, 35, 169, 243, 99, 149, 36, 221, 187, 18, 191,
            160, 215, 58, 250, 22, 134, 181, 182, 39, 96, 170, 75, 207, 180, 51, 25, 64, 232, 189,
            26, 226, 52, 76, 78, 100, 235
        ]
    );
}

#[test]
fn salt_and_loop_count_change_the_digest() {
    let rom = Rom::new(b"seed", RomGenerationType::FullRandom, 1_024);
    let digest = hash(b"salt", &rom, 2, 128);
    assert_ne!(digest, hash(b"salu", &rom, 2, 128));
    assert_ne!(digest, hash(b"", &rom, 2, 128));
    assert_ne!(digest, hash(b"salt", &rom, 3, 128));
}

#[test]
fn digest_is_the_result_of_one_machine() {
    let rom = Rom::new(b"seed", RomGenerationType::FullRandom, 1_024);
    let mut vm = VM::new(&rom.digest, 130, b"salt");
    for _ in 0..3 {
        vm.execute(&rom, 130);
    }
    assert_eq!(vm.finalize(), hash(b"salt", &rom, 3, 130));
}

#[test]
fn memory_is_reusable() {
    let rom = Rom::new(b"seed", RomGenerationType::FullRandom, 1_024);
    let first = hash(b"salt", &rom, 2, 128);
    let between = hash(b"other", &rom, 3, 200);
    assert_ne!(first, between);
    assert_eq!(hash(b"salt", &rom, 2, 128), first);
    let again = Rom::new(b"seed", RomGenerationType::FullRandom, 1_024);
    assert_eq!(hash(b"salt", &again, 2, 128), first);
}
