//! What a memory, its lines and a program hold, stated byte by byte.

use crate::rom::RomGenerationType;
use crate::{bytes, digest, program, rom};
use vstd::arithmetic::div_mod;
use vstd::prelude::*;
use vstd::string::StringSliceAdditionalSpecFns;

verus! {

/// An index that is `rounds` times past all of `n` places and `i` places on is `i`.
proof fn lemma_wrapped(x: int, n: int, rounds: int, i: int)
    requires
        0 <= i < n,
        x == rounds * n + i,
    ensures
        x % n == i,
{
    div_mod::lemma_fundamental_div_mod_converse(x, n, rounds, i);
}

/// A program is its instructions, one behind the other: byte `k` of instruction `i` is byte
/// `20 * i + k` of the program, however often the index has gone round all instructions.
pub proof fn law_instruction_is_its_bytes(program: Seq<u8>, rounds: nat, i: int, k: int)
    requires
        0 <= i < program.len() as int / 20,
        0 <= k < 20,
    ensures
        program::instruction_at(program, i).len() == 20,
        program::instruction_at(program, i)[k] == program[20 * i + k],
        program::instruction_at(program, rounds * (program.len() as int / 20) + i)[k]
            == program[20 * i + k],
{
    let n = program.len() as int / 20;
    lemma_wrapped(i, n, 0, i);
    lemma_wrapped(rounds * n + i, n, rounds as int, i);
}

/// No two instructions of a program share a byte: where one byte of the program changes, the
/// instruction that the byte belongs to changes in that byte, and every other one stays.
pub proof fn law_instruction_sees_only_its_bytes(program: Seq<u8>, place: int, value: u8, i: int)
    requires
        0 <= i < program.len() as int / 20,
        0 <= place < program.len(),
    ensures
        ({
            let changed = program::instruction_at(program.update(place, value), i);
            let kept = program::instruction_at(program, i);
            if 20 * i <= place < 20 * i + 20 {
                changed == kept.update(place - 20 * i, value)
            } else {
                changed == kept
            }
        }),
{
    let other = program.update(place, value);
    let n = program.len() as int / 20;
    lemma_wrapped(i, n, 0, i);
    let changed = program::instruction_at(other, i);
    let kept = program::instruction_at(program, i);
    if 20 * i <= place < 20 * i + 20 {
        assert(changed =~= kept.update(place - 20 * i, value));
    } else {
        assert(changed =~= kept);
    }
}

/// A memory is its lines, one behind the other: byte `k` of line `i` is byte `64 * i + k` of the
/// memory, however often the index has gone round all lines.
pub proof fn law_line_is_its_bytes(data: Seq<u8>, rounds: nat, i: int, k: int)
    requires
        0 <= i < data.len() as int / 64,
        0 <= k < 64,
    ensures
        rom::rom_line(data, i).len() == 64,
        rom::rom_line(data, i)[k] == data[64 * i + k],
        rom::rom_line(data, rounds * (data.len() as int / 64) + i)[k] == data[64 * i + k],
{
    let n = data.len() as int / 64;
    lemma_wrapped(i, n, 0, i);
    lemma_wrapped(rounds * n + i, n, rounds as int, i);
}

/// The sizes that a memory can have are the multiples of 64 from 64 on that fit in 32 bits.
pub proof fn law_memory_sizes(lines: int, rest: int)
    requires
        0 <= rest < 64,
    ensures
        rom::valid_rom_size(64 * lines + rest) <==> rest == 0 && 1 <= lines <= 0x3ff_ffff,
{
}

/// The memory can be generated in one step at any size. In two steps it can where the small memory
/// has whole lines, at least one and no more than the memory has bytes for, and at least one line
/// is taken.
pub proof fn law_generation_sizes(pre_size: usize, mixing_numbers: usize, size: int)
    ensures
        rom::valid_generation(RomGenerationType::FullRandom, size),
        rom::valid_generation(RomGenerationType::TwoStep { pre_size, mixing_numbers }, size)
            <==> pre_size != 0 && pre_size % 64 == 0 && pre_size <= size && mixing_numbers != 0,
{
}

/// A memory can be used exactly when its size is one that a memory can have.
pub proof fn law_usable_memory(memory: rom::Rom)
    ensures
        memory.wf() <==> memory.data@.len() >= 64 && memory.data@.len() % 64 == 0
            && memory.data@.len() < 0x1_0000_0000,
{
}

/// Exclusive or combines bytes at the same place.
pub proof fn law_xor_is_bytewise(a: Seq<u8>, b: Seq<u8>, k: int)
    requires
        0 <= k < a.len(),
    ensures
        rom::xored(a, b).len() == a.len(),
        rom::xored(a, b)[k] == a[k] ^ b[k],
{
}

/// The seed of a memory is the digest of the four bytes of the size, least significant byte first,
/// and of the whole key.
pub proof fn law_seed_is_digest_of_size_and_key(head: Seq<u8>, key: Seq<u8>, size: u32)
    requires
        head.len() == 4,
        size == head[0] + 0x100 * head[1] + 0x1_0000 * head[2] + 0x100_0000 * head[3],
    ensures
        rom::seed_message(key, size as nat) == head + key,
        rom::rom_seed(key, size as nat) == digest::blake2b_512(head + key),
{
    super::encoding::law_four_bytes(head, size);
}

/// A memory that is generated in one step is one expansion, of its whole size, of its seed: the
/// digest of the four bytes `head` of the size and of the key.
pub proof fn law_full_random_is_one_expansion(head: Seq<u8>, key: Seq<u8>, size: u32)
    requires
        head.len() == 4,
        size == head[0] + 0x100 * head[1] + 0x1_0000 * head[2] + 0x100_0000 * head[3],
    ensures
        rom::generated(
            RomGenerationType::FullRandom,
            rom::rom_seed(key, size as nat),
            size as nat,
        ) == digest::hprime_bytes(size as nat, digest::blake2b_512(head + key)),
{
    law_seed_is_digest_of_size_and_key(head, key, size);
}

/// Whatever the seed and the size, generation in one step is one expansion of the seed.
pub proof fn law_one_step_expands_seed(seed: Seq<u8>, size: nat)
    ensures
        rom::generated(RomGenerationType::FullRandom, seed, size) == digest::hprime_bytes(
            size,
            seed,
        ),
{
}

/// Number `k` of a digest is made of its bytes `2 * k` and `2 * k + 1`, the second one weighing
/// 256.
pub proof fn law_numbers_of_digest(digest: Seq<u8>, k: int)
    requires
        digest.len() == 64,
        0 <= k < 32,
    ensures
        rom::u16s_of(digest).len() == 32,
        rom::u16s_of(digest)[k] == digest[2 * k] + 256 * digest[2 * k + 1],
{
    reveal_with_fuel(bytes::le_value, 3);
}

/// Relative offset `32 * g + e` is number `e` of the digest of the seed, the text and the four
/// bytes of `g`.
pub proof fn law_relative_offsets(seed: Seq<u8>, groups: nat, g: u8, e: int)
    requires
        g < groups,
        0 <= e < 32,
    ensures
        rom::relative_offsets(seed, groups).len() == 32 * groups,
        ({
            let drawn = digest::blake2b_512(
                seed + "generation offset".spec_bytes() + seq![g, 0u8, 0u8, 0u8],
            );
            drawn.len() == 64 ==> rom::relative_offsets(seed, groups)[32 * g + e] == drawn[2 * e]
                + 256 * drawn[2 * e + 1]
        }),
    decreases groups,
{
    super::lemma_relative_offsets_len(seed, groups);
    super::lemma_relative_offsets_len(seed, (groups - 1) as nat);
    if g < groups - 1 {
        law_relative_offsets(seed, (groups - 1) as nat, g, e);
    } else {
        let tail = seq![g, 0u8, 0u8, 0u8];
        super::encoding::law_four_bytes(tail, g as u32);
        let drawn = digest::blake2b_512(seed + "generation offset".spec_bytes() + tail);
        if drawn.len() == 64 {
            law_numbers_of_digest(drawn, e);
        }
    }
}

/// Line `i` starts as the line of the small memory whose index is congruent to `i` modulo the
/// number of lines there.
pub proof fn law_first_source(
    pre_rom: Seq<u8>,
    offsets_diff: Seq<u16>,
    base: u8,
    i: int,
    rounds: int,
    source: int,
    k: int,
)
    requires
        0 <= source < pre_rom.len() as int / 64,
        i == rounds * (pre_rom.len() as int / 64) + source,
        0 <= k < 64,
    ensures
        rom::mixed_line(pre_rom, offsets_diff, base, i, 1).len() == 64,
        rom::mixed_line(pre_rom, offsets_diff, base, i, 1)[k] == pre_rom[64 * source + k],
{
    lemma_wrapped(i, pre_rom.len() as int / 64, rounds, source);
}

/// With `m + 1` mixing numbers in place of `m`, line `i` differs by exactly the line of the small
/// memory whose index is congruent, modulo the number of lines there, to the sum of `i`, the base
/// offset of the line and the relative offset whose turn it is.
pub proof fn law_next_source(
    pre_rom: Seq<u8>,
    offsets_diff: Seq<u16>,
    base: u8,
    i: int,
    m: nat,
    rounds: int,
    source: int,
    k: int,
)
    requires
        0 <= source < pre_rom.len() as int / 64,
        offsets_diff.len() > 0,
        m >= 1,
        i + base + offsets_diff[(m - 1) % offsets_diff.len() as int] == rounds * (
        pre_rom.len() as int / 64) + source,
        0 <= k < 64,
    ensures
        rom::mixed_line(pre_rom, offsets_diff, base, i, m).len() == 64,
        rom::mixed_line(pre_rom, offsets_diff, base, i, m + 1).len() == 64,
        rom::mixed_line(pre_rom, offsets_diff, base, i, m)[k] ^ rom::mixed_line(
            pre_rom,
            offsets_diff,
            base,
            i,
            m + 1,
        )[k] == pre_rom[64 * source + k],
{
    let lines = pre_rom.len() as int / 64;
    let sum = i + base + offsets_diff[(m - 1) % offsets_diff.len() as int];
    lemma_wrapped(sum, lines, rounds, source);
    super::lemma_further_steps(pre_rom, offsets_diff, base, i, 1, (m - 1) as nat);
    assert(1 + (m - 1) as nat == m);
    assert(0 <= i % lines < lines) by {
        div_mod::lemma_mod_bound(i, lines);
    }
    let line = rom::mixed_line(pre_rom, offsets_diff, base, i, m);
    let next = rom::mixed_line(pre_rom, offsets_diff, base, i, m + 1);
    assert(rom::mixed_line(pre_rom, offsets_diff, base, i, 1).len() == 64);
    assert(line.len() == 64);
    let x = line[k];
    let y = pre_rom[64 * source + k];
    assert(next[k] == x ^ y);
    assert(x ^ (x ^ y) == y) by (bit_vector);
}

/// A memory is put together line by line: byte `k` of line `i` is byte `k` of what is combined for
/// line `i` with the base offset of that line.
pub proof fn law_memory_is_its_mixed_lines(
    pre_rom: Seq<u8>,
    offsets_diff: Seq<u16>,
    offset_base: Seq<u8>,
    m: nat,
    size: nat,
    i: int,
    k: int,
)
    requires
        0 <= i,
        0 <= k < 64,
        64 * i + k < size,
    ensures
        rom::assembled(pre_rom, offsets_diff, offset_base, m, size).len() == size,
        rom::assembled(pre_rom, offsets_diff, offset_base, m, size)[64 * i + k] == rom::mixed_line(
            pre_rom,
            offsets_diff,
            offset_base[i],
            i,
            m,
        )[k],
{
    assert((64 * i + k) / 64 == i);
    assert((64 * i + k) % 64 == k);
}

/// What the two steps of the generation make of a seed with one mixing number, and what one more
/// mixing number changes: byte `k` of line `i` starts as byte `k` of line `first` of the small
/// memory, whose index is congruent to `i`; and with `m + 1` mixing numbers in place of `m` it
/// differs by byte `k` of line `source`, whose index is congruent to the sum of `i`, the base
/// offset of the line and the relative offset whose turn it is. The relative offsets are 128, drawn
/// from four digests of the seed, and start again behind the last one.
pub proof fn law_two_step_generation(
    seed: Seq<u8>,
    pre_size: usize,
    size: nat,
    m: usize,
    next: usize,
    i: int,
    first_rounds: int,
    first: int,
    rounds: int,
    source: int,
    k: int,
)
    requires
        m >= 1,
        next == m + 1,
        0 <= i,
        64 * i + 64 <= size,
        0 <= k < 64,
        0 <= first < pre_size as int / 64,
        i == first_rounds * (pre_size as int / 64) + first,
        0 <= source < pre_size as int / 64,
    ensures
        ({
            let small = digest::hprime_bytes(pre_size as nat, seed);
            let base = digest::hprime_bytes(
                size / 64,
                digest::blake2b_512(seed + "generation base".spec_bytes()),
            )[i];
            let turn = (m - 1) % 128;
            let drawn = digest::blake2b_512(
                seed + "generation offset".spec_bytes() + seq![(turn / 32) as u8, 0u8, 0u8, 0u8],
            );
            let offset = drawn[2 * (turn % 32)] + 256 * drawn[2 * (turn % 32) + 1];
            let once = rom::generated(
                RomGenerationType::TwoStep { pre_size, mixing_numbers: 1 },
                seed,
                size,
            );
            let less = rom::generated(
                RomGenerationType::TwoStep { pre_size, mixing_numbers: m },
                seed,
                size,
            );
            let more = rom::generated(
                RomGenerationType::TwoStep { pre_size, mixing_numbers: next },
                seed,
                size,
            );
            &&& once.len() == size && less.len() == size && more.len() == size
            &&& small.len() == pre_size ==> once[64 * i + k] == small[64 * first + k]
            &&& small.len() == pre_size && drawn.len() == 64 && i + base + offset == rounds * (
            pre_size as int / 64) + source ==> less[64 * i + k] ^ more[64 * i + k] == small[64
                * source + k]
        }),
{
    let small = digest::hprime_bytes(pre_size as nat, seed);
    let offset_base = digest::hprime_bytes(
        size / 64,
        digest::blake2b_512(seed + "generation base".spec_bytes()),
    );
    let base = offset_base[i];
    let diffs = rom::relative_offsets(seed, 4);
    let turn = (m - 1) % 128;
    let g = (turn / 32) as u8;
    let drawn = digest::blake2b_512(
        seed + "generation offset".spec_bytes() + seq![g, 0u8, 0u8, 0u8],
    );
    let offset = drawn[2 * (turn % 32)] + 256 * drawn[2 * (turn % 32) + 1];
    law_relative_offsets(seed, 4, g, turn % 32);
    assert(32 * g + turn % 32 == turn);
    law_memory_is_its_mixed_lines(small, diffs, offset_base, 1, size, i, k);
    law_memory_is_its_mixed_lines(small, diffs, offset_base, m as nat, size, i, k);
    law_memory_is_its_mixed_lines(small, diffs, offset_base, m as nat + 1, size, i, k);
    if small.len() == pre_size {
        law_first_source(small, diffs, base, i, first_rounds, first, k);
        if drawn.len() == 64 && i + base + offset == rounds * (pre_size as int / 64) + source {
            assert(diffs[(m - 1) % diffs.len() as int] == offset);
            law_next_source(small, diffs, base, i, m as nat, rounds, source, k);
        }
    }
}

} // verus!
