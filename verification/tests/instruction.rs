use ashmaize::bytes::{read_word, u16_from_le, u32_to_le, u64_from_le, u64_to_le};
use ashmaize::instruction::{
    decode_instruction, execute_op2, execute_op3, nonzero_divisor, Instr, Instruction, Op2, Op3,
    Operand,
};
use ashmaize::word::{isqrt, mul_high, reverse_bits, rotate_left, rotate_right};

const SAMPLES: [u64; 8] = [
    0,
    1,
    2,
    0x8000_0000_0000_0000,
    0xffff_ffff_ffff_ffff,
    0x0123_4567_89ab_cdef,
    0xdead_beef_0bad_f00d,
    0x0000_0001_0000_0000,
];

#[test]
fn opcode_shares() {
    let mut shares: Vec<(Instr, usize)> = Vec::new();
    let mut hashes: Vec<u8> = Vec::new();
    for value in 0..=255u8 {
        let instr = Instr::from(value);
        if let Instr::Op3(Op3::Hash(v)) = instr {
            hashes.push(v);
        } else if let Some(entry) = shares.iter_mut().find(|entry| entry.0 == instr) {
            entry.1 += 1;
        } else {
            shares.push((instr, 1));
        }
    }
    assert_eq!(
        shares,
        vec![
            (Instr::Op3(Op3::Add), 40),
            (Instr::Op3(Op3::Mul), 40),
            (Instr::Op3(Op3::MulH), 16),
            (Instr::Op3(Op3::Div), 16),
            (Instr::Op3(Op3::Mod), 16),
            (Instr::Op2(Op2::ISqrt), 10),
            (Instr::Op2(Op2::BitRev), 10),
            (Instr::Op3(Op3::Xor), 40),
            (Instr::Op3(Op3::RotL), 16),
            (Instr::Op3(Op3::RotR), 16),
            (Instr::Op2(Op2::Neg), 20),
            (Instr::Op3(Op3::And), 8),
        ]
    );
    assert_eq!(hashes, vec![0, 1, 2, 3, 4, 5, 6, 7]);
}

#[test]
fn operand_kinds() {
    let kinds: Vec<Operand> = (0..16u8).map(Operand::from).collect();
    assert_eq!(kinds[..4], [Operand::Reg; 4]);
    assert_eq!(kinds[4..8], [Operand::Memory; 4]);
    assert_eq!(kinds[8..12], [Operand::Literal; 4]);
    assert_eq!(kinds[12..14], [Operand::Special1; 2]);
    assert_eq!(kinds[14..], [Operand::Special2; 2]);
}

#[test]
fn decoding() {
    // registers: 0b10101_11001_00111 below one bit that is not used
    let code = [
        250, 0x4e, 0b1101_0111, 0b0010_0111, 1, 2, 3, 4, 5, 6, 7, 8, 0xff, 0, 0, 0, 0, 0, 0, 0x80,
    ];
    let decoded = decode_instruction(&code);
    assert_eq!(
        decoded,
        Instruction {
            opcode: Instr::Op3(Op3::Hash(2)),
            op1: Operand::Memory,
            op2: Operand::Special2,
            r1: 0b10101,
            r2: 0b11001,
            r3: 0b00111,
            lit1: 0x0807_0605_0403_0201,
            lit2: 0x8000_0000_0000_00ff,
        }
    );
}

#[test]
fn decoded_registers_exist() {
    for a in 0..=255u8 {
        let code = [248, 0, a, a.wrapping_mul(7), 0, 0, 0, 0, 0, 0, 0, 0, 0, 0, 0, 0, 0, 0, 0, 0];
        let decoded = decode_instruction(&code);
        assert!(decoded.r1 < 32 && decoded.r2 < 32 && decoded.r3 < 32);
    }
}

#[test]
fn two_source_operations() {
    let none = [0u8; 64];
    let max = u64::MAX;
    assert_eq!(execute_op3(Op3::Add, max, 2, 0, &none), 1);
    assert_eq!(execute_op3(Op3::Mul, max, max, 0, &none), 1);
    assert_eq!(execute_op3(Op3::MulH, max, max, 0, &none), max - 1);
    assert_eq!(execute_op3(Op3::Xor, 0b1100, 0b1010, 0, &none), 0b0110);
    assert_eq!(execute_op3(Op3::And, 0b1100, 0b1010, 0, &none), 0b1000);
    assert_eq!(execute_op3(Op3::Div, 17, 5, 3, &none), 3);
    assert_eq!(execute_op3(Op3::Mod, 17, 5, 3, &none), 2);
    assert_eq!(execute_op3(Op3::Div, 17, 0, 3, &none), 5);
    assert_eq!(execute_op3(Op3::Mod, 17, 0, 3, &none), 2);
    assert_eq!(execute_op3(Op3::Div, 17, 0, 0, &none), 17);
    assert_eq!(execute_op3(Op3::Mod, 17, 0, 0, &none), 0);
    assert_eq!(execute_op3(Op3::RotL, 0x8000_0000_0000_0001, 1, 0, &none), 3);
    assert_eq!(execute_op3(Op3::RotR, 3, 1, 0, &none), 0x8000_0000_0000_0001);
    // only the lower bits of the distance count
    assert_eq!(execute_op3(Op3::RotL, 5, 0x1_0000_0000, 0, &none), 5);
    assert_eq!(execute_op3(Op3::RotL, 5, max, 0, &none), 5u64.rotate_left(63));
    assert_eq!(execute_op3(Op3::RotR, 5, 65, 0, &none), 5u64.rotate_right(1));
    let mut digest = [0u8; 64];
    digest[24] = 0x0d;
    digest[31] = 0x01;
    assert_eq!(execute_op3(Op3::Hash(3), 1, 2, 0, &digest), 0x0100_0000_0000_000d);
    assert_eq!(execute_op3(Op3::Hash(4), 1, 2, 0, &digest), 0);
}

#[test]
fn one_source_operations() {
    assert_eq!(execute_op2(Op2::Neg, 0), u64::MAX);
    assert_eq!(execute_op2(Op2::Neg, 0xff), 0xffff_ffff_ffff_ff00);
    assert_eq!(execute_op2(Op2::ISqrt, 24), 4);
    assert_eq!(execute_op2(Op2::ISqrt, 25), 5);
    assert_eq!(execute_op2(Op2::BitRev, 1), 0x8000_0000_0000_0000);
    assert_eq!(execute_op2(Op2::BitRev, 0b1101), 0xb000_0000_0000_0000);
}

#[test]
fn divisors() {
    assert_eq!(nonzero_divisor(9, 4), 9);
    assert_eq!(nonzero_divisor(0, 4), 4);
    assert_eq!(nonzero_divisor(0, 0), 1);
}

#[test]
fn square_roots() {
    assert_eq!(isqrt(0), 0);
    assert_eq!(isqrt(1), 1);
    assert_eq!(isqrt(3), 1);
    assert_eq!(isqrt(4), 2);
    assert_eq!(isqrt(0xffff_fffe_0000_0001), 0xffff_ffff);
    assert_eq!(isqrt(0xffff_fffe_0000_0000), 0xffff_fffe);
    assert_eq!(isqrt(u64::MAX), 0xffff_ffff);
    for x in SAMPLES {
        assert_eq!(isqrt(x), x.isqrt());
    }
}

#[test]
fn rotations_undo_each_other() {
    for x in SAMPLES {
        for n in [0u32, 1, 7, 31, 32, 63, 64, 65, 1000, u32::MAX] {
            assert_eq!(rotate_left(x, n), x.rotate_left(n));
            assert_eq!(rotate_right(x, n), x.rotate_right(n));
            assert_eq!(rotate_right(rotate_left(x, n), n), x);
            assert_eq!(rotate_left(rotate_right(x, n), n), x);
        }
    }
}

#[test]
fn reversal_undoes_itself() {
    for x in SAMPLES {
        assert_eq!(reverse_bits(x), x.reverse_bits());
        assert_eq!(reverse_bits(reverse_bits(x)), x);
    }
}

#[test]
fn upper_half_of_products() {
    assert_eq!(mul_high(0x1_0000_0000, 0x1_0000_0000), 1);
    assert_eq!(mul_high(u64::MAX, 2), 1);
    assert_eq!(mul_high(3, 5), 0);
}

#[test]
fn little_endian_words() {
    assert_eq!(u16_from_le(&[0x34, 0x12]), 0x1234);
    assert_eq!(u64_from_le(&[1, 2, 3, 4, 5, 6, 7, 8]), 0x0807_0605_0403_0201);
    assert_eq!(u32_to_le(0x0a0b_0c0d), [0x0d, 0x0c, 0x0b, 0x0a]);
    assert_eq!(u64_to_le(0x0807_0605_0403_0201), [1, 2, 3, 4, 5, 6, 7, 8]);
    let bytes: Vec<u8> = (0u8..24).collect();
    assert_eq!(read_word(&bytes, 1), 0x0f0e_0d0c_0b0a_0908);
    for x in SAMPLES {
        assert_eq!(u64_from_le(&u64_to_le(x)), x);
    }
}
