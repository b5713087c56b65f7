//! What bytes, bits, digits and encoded instructions stand for, stated in numbers alone.

use crate::instruction::{Instr, Op2, Op3, Operand};
use crate::{bytes, hex, instruction, vm, word};
use vstd::arithmetic::{power, power2};
use vstd::prelude::*;

verus! {

/// Byte `j` of an 8-byte word weighs 256 to the power of `j`.
pub proof fn law_word_is_weighted_sum(s: Seq<u8>, i: int)
    requires
        0 <= i,
        8 * i + 8 <= s.len(),
    ensures
        bytes::word_at(s, i) == s[8 * i] + 0x100 * s[8 * i + 1] + 0x1_0000 * s[8 * i + 2]
            + 0x100_0000 * s[8 * i + 3] + 0x1_0000_0000 * s[8 * i + 4] + 0x100_0000_0000 * s[8 * i
            + 5] + 0x1_0000_0000_0000 * s[8 * i + 6] + 0x100_0000_0000_0000 * s[8 * i + 7],
{
    reveal_with_fuel(bytes::le_value, 9);
}

/// A further byte behind `n` bytes weighs 256 to the power of `n`, and no bytes stand for zero.
pub proof fn law_last_byte_weighs_most(s: Seq<u8>, last: u8)
    ensures
        bytes::le_value(Seq::empty()) == 0,
        bytes::le_value(s.push(last)) == bytes::le_value(s) + last * power::pow(256, s.len()),
    decreases s.len(),
{
    reveal(power::pow);
    let t = s.push(last);
    if s.len() == 0 {
        assert(t.drop_first() =~= Seq::empty());
        assert(power::pow(256, 0) == 1);
    } else {
        let rest = s.drop_first();
        law_last_byte_weighs_most(rest, last);
        assert(t.drop_first() =~= rest.push(last));
        let p = power::pow(256, rest.len());
        assert(power::pow(256, s.len()) == 256 * p);
        let b = last as int;
        assert(256 * (b * p) == b * (256 * p)) by (nonlinear_arith);
    }
}

/// Byte `k` of the bytes of a number is digit `k` of the number in base 256.
pub proof fn law_bytes_are_digits(x: nat, n: nat, k: nat)
    requires
        k < n,
    ensures
        bytes::le_bytes(x, n).len() == n,
        bytes::le_bytes(x, n)[k as int] == (x as int / power::pow(256, k)) % 256,
    decreases n,
{
    reveal(power::pow);
    bytes::lemma_le_bytes_len(x, n);
    bytes::lemma_le_bytes_len(x / 256, (n - 1) as nat);
    if k == 0 {
        assert(power::pow(256, 0) == 1);
    } else {
        let j = (k - 1) as nat;
        law_bytes_are_digits(x / 256, (n - 1) as nat, j);
        power::lemma_pow_positive(256, j);
        vstd::arithmetic::div_mod::lemma_div_denominator(x as int, 256, power::pow(256, j));
        let rest = bytes::le_bytes(x / 256, (n - 1) as nat);
        assert(bytes::le_bytes(x, n)[k as int] == rest[j as int]);
    }
}

/// Four bytes are the bytes of the number whose weighted sum they are, and of no other.
pub proof fn law_four_bytes(s: Seq<u8>, x: u32)
    requires
        s.len() == 4,
    ensures
        s == bytes::le_bytes(x as nat, 4) <==> x == s[0] + 0x100 * s[1] + 0x1_0000 * s[2]
            + 0x100_0000 * s[3],
{
    reveal_with_fuel(bytes::le_bytes, 5);
    let b = bytes::le_bytes(x as nat, 4);
    bytes::lemma_le_bytes_len(x as nat, 4);
    let x1 = x as nat / 256;
    let x2 = x1 / 256;
    let x3 = x2 / 256;
    assert(b[0] == x % 256 && b[1] == x1 % 256 && b[2] == x2 % 256 && b[3] == x3 % 256);
    if x == s[0] + 0x100 * s[1] + 0x1_0000 * s[2] + 0x100_0000 * s[3] {
        assert(s =~= b);
    }
}

/// Eight bytes are the bytes of the number whose weighted sum they are, and of no other.
pub proof fn law_eight_bytes(s: Seq<u8>, x: u64)
    requires
        s.len() == 8,
    ensures
        s == bytes::le_bytes(x as nat, 8) <==> x == s[0] + 0x100 * s[1] + 0x1_0000 * s[2]
            + 0x100_0000 * s[3] + 0x1_0000_0000 * s[4] + 0x100_0000_0000 * s[5]
            + 0x1_0000_0000_0000 * s[6] + 0x100_0000_0000_0000 * s[7],
{
    lemma_bytes_of_value(s);
    law_word_is_weighted_sum(s, 0);
    assert(s.subrange(0, 8) =~= s);
    super::law_word_bytes_round_trip(x);
    reveal_with_fuel(bytes::le_value, 9);
}

proof fn lemma_bytes_of_value(s: Seq<u8>)
    ensures
        bytes::le_bytes(bytes::le_value(s), s.len()) == s,
    decreases s.len(),
{
    if s.len() > 0 {
        let rest = s.drop_first();
        lemma_bytes_of_value(rest);
        assert(bytes::le_value(s) % 256 == s[0]);
        assert(bytes::le_value(s) / 256 == bytes::le_value(rest));
    }
    assert(bytes::le_bytes(bytes::le_value(s), s.len()) =~= s);
}

/// Bit `i` of a word is its binary digit of weight 2 to the power of `i`.
pub proof fn law_bit_is_binary_digit(x: u64, i: nat)
    requires
        i < 64,
    ensures
        word::bit(x, i as int) <==> (x as nat / power2::pow2(i)) % 2 == 1,
{
    vstd::bits::lemma_u64_shr_is_div(x, i as u64);
    let y = x >> (i as u64);
    assert(y & 1 == y % 2) by (bit_vector);
}

/// Rotating down by `n` places moves the bit at `k + n`, counted modulo 64, to the place `k`.
pub proof fn law_rotation_down_moves_bits(x: u64, n: int, k: int)
    requires
        0 <= k < 64,
    ensures
        word::bit(word::rotated_right(x, n), k) == word::bit(x, (k + n) % 64),
{
    word::lemma_bit_of_rotation(x, n, k);
}

/// Reversing a word moves bit `k` to the place `63 - k`.
pub proof fn law_reversal_moves_bits(x: u64, k: int)
    requires
        0 <= k < 64,
    ensures
        word::bit(word::reversed(x), 63 - k) == word::bit(x, k),
{
    let back = Seq::new(64, |i: int| word::bit(x, 63 - i));
    word::lemma_bits_of_number(back);
    assert(back[63 - k] == word::bit(word::from_bits(back) as u64, 63 - k));
}

/// The square of the root is at most the number, and the square of the next number is above it.
pub proof fn law_root_squares(x: nat)
    ensures
        word::isqrt_of(x) * word::isqrt_of(x) <= x,
        x < (word::isqrt_of(x) + 1) * (word::isqrt_of(x) + 1),
{
    super::law_isqrt_exists(x);
}

/// Which opcode bytes stand for which operation, and for no other.
pub proof fn law_opcode_ranges(v: u8)
    ensures
        instruction::instr_of(v) == Instr::Op3(Op3::Add) <==> 0 <= v <= 39,
        instruction::instr_of(v) == Instr::Op3(Op3::Mul) <==> 40 <= v <= 79,
        instruction::instr_of(v) == Instr::Op3(Op3::MulH) <==> 80 <= v <= 95,
        instruction::instr_of(v) == Instr::Op3(Op3::Div) <==> 96 <= v <= 111,
        instruction::instr_of(v) == Instr::Op3(Op3::Mod) <==> 112 <= v <= 127,
        instruction::instr_of(v) == Instr::Op2(Op2::ISqrt) <==> 128 <= v <= 137,
        instruction::instr_of(v) == Instr::Op2(Op2::BitRev) <==> 138 <= v <= 147,
        instruction::instr_of(v) == Instr::Op3(Op3::Xor) <==> 148 <= v <= 187,
        instruction::instr_of(v) == Instr::Op3(Op3::RotL) <==> 188 <= v <= 203,
        instruction::instr_of(v) == Instr::Op3(Op3::RotR) <==> 204 <= v <= 219,
        instruction::instr_of(v) == Instr::Op2(Op2::Neg) <==> 220 <= v <= 239,
        instruction::instr_of(v) == Instr::Op3(Op3::And) <==> 240 <= v <= 247,
        forall|w: u8|
            #[trigger] instruction::instr_of(v) == Instr::Op3(Op3::Hash(w)) <==> v == 248 + w,
{
}

/// Which nibbles stand for which kind of operand, and for no other.
pub proof fn law_nibble_ranges(n: int)
    requires
        0 <= n < 16,
    ensures
        instruction::operand_of(n) == Operand::Reg <==> 0 <= n <= 3,
        instruction::operand_of(n) == Operand::Memory <==> 4 <= n <= 7,
        instruction::operand_of(n) == Operand::Literal <==> 8 <= n <= 11,
        instruction::operand_of(n) == Operand::Special1 <==> 12 <= n <= 13,
        instruction::operand_of(n) == Operand::Special2 <==> 14 <= n <= 15,
{
}

/// The fields of an instruction put its bytes together again: the nibbles `high` and `low` make up
/// the second byte, the three registers and one unused bit the next two, most significant bits
/// first, and the literals the rest, least significant byte first.
pub proof fn law_decoded_fields(code: Seq<u8>, high: int, low: int)
    requires
        code.len() == 20,
        0 <= low < 16,
        code[1] == 16 * high + low,
    ensures
        ({
            let i = instruction::decoded(code);
            let unused: int = if code[2] >= 128 {
                1
            } else {
                0
            };
            &&& i.opcode == instruction::instr_of(code[0])
            &&& i.op1 == instruction::operand_of(high)
            &&& i.op2 == instruction::operand_of(low)
            &&& i.r1 < 32 && i.r2 < 32 && i.r3 < 32
            &&& 256 * code[2] + code[3] == 32768 * unused + 1024 * i.r1 + 32 * i.r2 + i.r3
            &&& i.lit1 == code[4] + 0x100 * code[5] + 0x1_0000 * code[6] + 0x100_0000 * code[7]
                + 0x1_0000_0000 * code[8] + 0x100_0000_0000 * code[9] + 0x1_0000_0000_0000
                * code[10] + 0x100_0000_0000_0000 * code[11]
            &&& i.lit2 == code[12] + 0x100 * code[13] + 0x1_0000 * code[14] + 0x100_0000
                * code[15] + 0x1_0000_0000 * code[16] + 0x100_0000_0000 * code[17]
                + 0x1_0000_0000_0000 * code[18] + 0x100_0000_0000_0000 * code[19]
        }),
{
    lemma_packed_registers(code[2], code[3]);
    lemma_nibbles(code[1], high, low);
    lemma_literal(code, 4);
    lemma_literal(code, 12);
}

proof fn lemma_packed_registers(upper: u8, lower: u8)
    ensures
        ({
            let packed = 256 * upper + lower;
            let unused: int = if upper >= 128 {
                1
            } else {
                0
            };
            packed == 32768 * unused + 1024 * ((packed / 1024) % 32) + 32 * ((packed / 32) % 32)
                + packed % 32
        }),
{
    let packed = 256 * upper + lower;
    let a = packed / 32;
    let b = packed / 1024;
    assert(b == a / 32);
    assert(packed == 32 * a + packed % 32);
    assert(a == 32 * b + a % 32);
    assert(b / 32 == (if upper >= 128 {
        1int
    } else {
        0int
    }));
}

proof fn lemma_nibbles(kinds: u8, high: int, low: int)
    requires
        0 <= low < 16,
        kinds == 16 * high + low,
    ensures
        kinds as int / 16 == high,
        kinds as int % 16 == low,
{
}

proof fn lemma_literal(code: Seq<u8>, at: int)
    requires
        0 <= at,
        at + 8 <= code.len(),
    ensures
        bytes::le_value(code.subrange(at, at + 8)) == code[at] + 0x100 * code[at + 1] + 0x1_0000
            * code[at + 2] + 0x100_0000 * code[at + 3] + 0x1_0000_0000 * code[at + 4]
            + 0x100_0000_0000 * code[at + 5] + 0x1_0000_0000_0000 * code[at + 6]
            + 0x100_0000_0000_0000 * code[at + 7],
{
    reveal_with_fuel(bytes::le_value, 9);
}

/// An instruction reads the memory once for each of its operands that is in the memory; an
/// operation with one source has one operand only.
pub proof fn law_memory_reads(i: instruction::Instruction)
    ensures
        instruction::memory_reads(i) <= 2,
        instruction::memory_reads(i) == 0 <==> i.op1 != Operand::Memory && (i.opcode is Op2 || i.op2
            != Operand::Memory),
        instruction::memory_reads(i) == 2 <==> i.op1 == Operand::Memory && i.opcode is Op3 && i.op2
            == Operand::Memory,
{
}

/// Exclusive or differs from `src1` in the bits of `src2`; the conjunction has the bits that both
/// have.
pub proof fn law_bitwise_operations(src1: u64, src2: u64, special1: u64, digest: Seq<u8>, k: int)
    requires
        0 <= k < 64,
    ensures
        word::bit(instruction::op3_result(Op3::Xor, src1, src2, special1, digest), k) == (word::bit(
            src1,
            k,
        ) != word::bit(src2, k)),
        word::bit(instruction::op3_result(Op3::And, src1, src2, special1, digest), k) == (word::bit(
            src1,
            k,
        ) && word::bit(src2, k)),
{
    let j = k as u64;
    assert((((src1 ^ src2) >> j) & 1 == 1) == (((src1 >> j) & 1 == 1) != ((src2 >> j) & 1 == 1)))
        by (bit_vector);
    assert((((src1 & src2) >> j) & 1 == 1) == (((src1 >> j) & 1 == 1) && ((src2 >> j) & 1 == 1)))
        by (bit_vector);
}

/// A quotient and a remainder put the first source together again. The divisor is the second
/// source; where that is zero, the special value; and where both are zero, one.
pub proof fn law_division_recombines(
    src1: u64,
    src2: u64,
    special1: u64,
    digest: Seq<u8>,
    divisor: u64,
)
    requires
        src2 != 0 ==> divisor == src2,
        src2 == 0 && special1 != 0 ==> divisor == special1,
        src2 == 0 && special1 == 0 ==> divisor == 1,
    ensures
        instruction::op3_result(Op3::Div, src1, src2, special1, digest) * divisor
            + instruction::op3_result(Op3::Mod, src1, src2, special1, digest) == src1,
        instruction::op3_result(Op3::Mod, src1, src2, special1, digest) < divisor,
{
    vstd::arithmetic::div_mod::lemma_fundamental_div_mod(src1 as int, divisor as int);
    vstd::arithmetic::div_mod::lemma_div_basics(src1 as int);
    vstd::arithmetic::div_mod::lemma_mod_bound(src1 as int, divisor as int);
    vstd::arithmetic::mul::lemma_mul_is_commutative(divisor as int, src1 as int / divisor as int);
}

/// A rotation by an instruction counts its second source modulo 64, and moves every bit of the
/// first source.
pub proof fn law_rotation_operations(src1: u64, src2: u64, special1: u64, digest: Seq<u8>, k: int)
    requires
        0 <= k < 64,
    ensures
        word::bit(
            instruction::op3_result(Op3::RotL, src1, src2, special1, digest),
            (k + src2) % 64,
        ) == word::bit(src1, k),
        word::bit(instruction::op3_result(Op3::RotR, src1, src2, special1, digest), k) == word::bit(
            src1,
            (k + src2) % 64,
        ),
{
    super::law_rotation_moves_bits(src1, src2 as int, k);
    law_rotation_down_moves_bits(src1, src2 as int, k);
}

/// A hash operation gives the eight bytes of the digest from byte `8 * v` on, read as a number.
pub proof fn law_hash_operation_selects(
    src1: u64,
    src2: u64,
    special1: u64,
    digest: Seq<u8>,
    v: u8,
)
    requires
        v < 8,
        digest.len() == 64,
    ensures
        instruction::op3_result(Op3::Hash(v), src1, src2, special1, digest) == digest[8 * v] + 0x100
            * digest[8 * v + 1] + 0x1_0000 * digest[8 * v + 2] + 0x100_0000 * digest[8 * v + 3]
            + 0x1_0000_0000 * digest[8 * v + 4] + 0x100_0000_0000 * digest[8 * v + 5]
            + 0x1_0000_0000_0000 * digest[8 * v + 6] + 0x100_0000_0000_0000 * digest[8 * v + 7],
{
    law_word_is_weighted_sum(digest, v as int);
}

/// What the operations with one source make of it: the complement adds up with it to all ones, the
/// root is the rounded-down square root, and the reversal has bit `k` at the place `63 - k`.
pub proof fn law_one_source_operations(src1: u64, k: int)
    requires
        0 <= k < 64,
    ensures
        instruction::op2_result(Op2::Neg, src1) + src1 == 0xffff_ffff_ffff_ffff,
        ({
            let r = instruction::op2_result(Op2::ISqrt, src1);
            r * r <= src1 < (r + 1) * (r + 1)
        }),
        word::bit(instruction::op2_result(Op2::BitRev, src1), 63 - k) == word::bit(src1, k),
{
    law_root_squares(src1 as nat);
    law_reversal_moves_bits(src1, k);
    let r = word::isqrt_of(src1 as nat);
    assert(r <= 0xffff_ffff) by (nonlinear_arith)
        requires
            r * r <= src1,
            src1 <= 0xffff_ffff_ffff_ffff,
            0 <= r,
    ;
}

/// The digits below ten are `0` to `9`, the others `a` to `f`.
pub proof fn law_hex_digit_characters(d: int)
    requires
        0 <= d < 16,
    ensures
        d < 10 ==> hex::hex_digit(d) as int == '0' as int + d,
        d >= 10 ==> hex::hex_digit(d) as int == 'a' as int + d - 10,
{
}

/// Counted from the end, character `k` of a hexadecimal text is the digit of weight 16 to the power
/// of `k`.
pub proof fn law_hex_text(x: nat, width: nat, k: nat)
    requires
        k < width,
    ensures
        hex::hex(x, width).len() == width,
        hex::hex(x, width)[width - 1 - k] == hex::hex_digit((x as int / power::pow(16, k)) % 16),
    decreases width,
{
    reveal(power::pow);
    lemma_hex_len(x, width);
    lemma_hex_len(x / 16, (width - 1) as nat);
    if k == 0 {
        assert(power::pow(16, 0) == 1);
    } else {
        let j = (k - 1) as nat;
        law_hex_text(x / 16, (width - 1) as nat, j);
        power::lemma_pow_positive(16, j);
        vstd::arithmetic::div_mod::lemma_div_denominator(x as int, 16, power::pow(16, j));
        assert(power::pow(16, k) == 16 * power::pow(16, j));
    }
}

proof fn lemma_hex_len(x: nat, width: nat)
    ensures
        hex::hex(x, width).len() == width,
    decreases width,
{
    if width > 0 {
        lemma_hex_len(x / 16, (width - 1) as nat);
    }
}

/// In a listing, register `i` starts at character `22 * i + i / 4`, each register taking 22
/// characters and every fourth one a line end more: its index in two digits between brackets, and
/// its value in sixteen.
pub proof fn law_listing_places(regs: Seq<u64>, i: int, c: int)
    requires
        0 <= i < regs.len(),
        0 <= c < 22,
    ensures
        vm::listing(regs).len() == 22 * regs.len() + regs.len() / 4,
        ({
            let shown = vm::listing(regs)[22 * i + i / 4 + c];
            &&& c == 0 ==> shown == '['
            &&& 1 <= c < 3 ==> shown == hex::hex(i as nat, 2)[c - 1]
            &&& c == 3 ==> shown == ']'
            &&& c == 4 || c == 21 ==> shown == ' '
            &&& 5 <= c < 21 ==> shown == hex::hex(regs[i] as nat, 16)[c - 5]
        }),
        i % 4 == 3 ==> vm::listing(regs)[22 * i + i / 4 + 22] == '\n',
    decreases regs.len(),
{
    let n = regs.len() - 1;
    let before = vm::listing(regs.drop_last());
    lemma_listing_len(regs.drop_last());
    lemma_listing_len(regs);
    lemma_hex_len(n as nat, 2);
    lemma_hex_len(regs.last() as nat, 16);
    if i < n {
        law_listing_places(regs.drop_last(), i, c);
        assert(22 * i + i / 4 + c < before.len());
        assert(i % 4 == 3 ==> 22 * i + i / 4 + 22 < before.len());
    }
}

proof fn lemma_listing_len(regs: Seq<u64>)
    ensures
        vm::listing(regs).len() == 22 * regs.len() + regs.len() / 4,
    decreases regs.len(),
{
    if regs.len() > 0 {
        lemma_listing_len(regs.drop_last());
        lemma_hex_len((regs.len() - 1) as nat, 2);
        lemma_hex_len(regs.last() as nat, 16);
    }
}

} // verus!
