//! The read-only memory on which programs run.

use crate::bytes::{as_array, u16_from_le, u32_to_le};
use crate::digest::{blake2b_finalize, blake2b_start, blake2b_update, hprime};
use crate::{bytes, digest};
use vstd::prelude::*;
use vstd::string::StringSliceAdditionalSpecFns;

verus! {

/// The size of one access to the memory, in bytes: a cache line.
pub const DATASET_ACCESS_SIZE: usize = 64;

/// How many digests the relative offsets of the two-step generation are drawn from.
pub const OFFSET_LOOPS: u32 = 4;

/// The digest that identifies a [`Rom`].
pub struct RomDigest(pub [u8; 64]);

/// The **R**ead **O**nly **M**emory that programs read from.
///
/// It is generated once from a key and can then serve any number of hash computations.
pub struct Rom {
    pub digest: RomDigest,
    pub data: Vec<u8>,
}

/// How a [`Rom`] is generated.
#[derive(Clone, Copy, Debug)]
pub enum RomGenerationType {
    /// The whole memory comes out of one run of the variable-length hash, which makes this the
    /// simplest and the slower way.
    FullRandom,
    /// A small memory comes out of the variable-length hash, and every line of the memory is
    /// combined from lines of the small one.
    TwoStep {
        /// The size of the small memory in bytes: a multiple of 64, not zero and at most the size
        /// of the memory.
        pre_size: usize,
        /// How many lines of the small memory are combined into one line, at least one.
        mixing_numbers: usize,
    },
}

/// Whether a memory can have `size` bytes: a multiple of 64, not zero, that fits in 32 bits.
pub open spec fn valid_rom_size(size: int) -> bool {
    64 <= size <= u32::MAX && size % 64 == 0
}

/// Whether a memory of `size` bytes can be generated in this way.
pub open spec fn valid_generation(gen_type: RomGenerationType, size: int) -> bool {
    match gen_type {
        RomGenerationType::FullRandom => true,
        RomGenerationType::TwoStep { pre_size, mixing_numbers } => {
            &&& 64 <= pre_size <= size
            &&& pre_size % 64 == 0
            &&& mixing_numbers >= 1
        },
    }
}

/// The line at index `i` of a memory; an index past the end wraps around.
pub open spec fn rom_line(data: Seq<u8>, i: int) -> Seq<u8> {
    bytes::piece(data, 64, i % (data.len() as int / 64))
}

/// `a` and `b` combined byte by byte with exclusive or.
pub open spec fn xored(a: Seq<u8>, b: Seq<u8>) -> Seq<u8> {
    Seq::new(a.len(), |i: int| a[i] ^ b[i])
}

/// The 32 little-endian 16-bit numbers in a digest.
pub open spec fn u16s_of(digest: Seq<u8>) -> Seq<u16> {
    Seq::new(32, |k: int| bytes::le_value(bytes::piece(digest, 2, k)) as u16)
}

/// What the `i`-th group of relative offsets is the digest of.
pub open spec fn offset_message(seed: Seq<u8>, i: int) -> Seq<u8> {
    seed + "generation offset".spec_bytes() + bytes::le_bytes(i as nat, 4)
}

/// The length of the digest from which the relative offsets of group `g` are drawn.
pub open spec fn offset_digest_len(seed: Seq<u8>, g: u8) -> nat {
    digest::blake2b_512(seed + "generation offset".spec_bytes() + seq![g, 0u8, 0u8, 0u8]).len()
}

/// What the base offsets are expanded from is the digest of this.
pub open spec fn base_message(seed: Seq<u8>) -> Seq<u8> {
    seed + "generation base".spec_bytes()
}

/// The first `32 * groups` relative offsets.
pub open spec fn relative_offsets(seed: Seq<u8>, groups: nat) -> Seq<u16>
    decreases groups,
{
    if groups == 0 {
        Seq::empty()
    } else {
        relative_offsets(seed, (groups - 1) as nat) + u16s_of(
            digest::blake2b_512(offset_message(seed, groups - 1)),
        )
    }
}

/// The index of the line of the small memory that joins line `i` of the memory in step `d`.
pub open spec fn source_line(
    lines: int,
    offsets_diff: Seq<u16>,
    base: u8,
    i: int,
    d: int,
) -> int {
    if d == 0 {
        i % lines
    } else {
        (i + base + offsets_diff[(d - 1) % offsets_diff.len() as int]) % lines
    }
}

/// Line `i` of the memory: the lines of the small memory of the steps `0..count`, combined.
pub open spec fn mixed_line(
    pre_rom: Seq<u8>,
    offsets_diff: Seq<u16>,
    base: u8,
    i: int,
    count: nat,
) -> Seq<u8>
    decreases count,
{
    let lines = pre_rom.len() as int / 64;
    if count <= 1 {
        bytes::piece(pre_rom, 64, source_line(lines, offsets_diff, base, i, 0))
    } else {
        xored(
            mixed_line(pre_rom, offsets_diff, base, i, (count - 1) as nat),
            bytes::piece(pre_rom, 64, source_line(lines, offsets_diff, base, i, count - 1)),
        )
    }
}

/// A memory of `size` bytes, combined line by line from the small memory `pre_rom`.
pub open spec fn assembled(
    pre_rom: Seq<u8>,
    offsets_diff: Seq<u16>,
    offset_base: Seq<u8>,
    mixing_numbers: nat,
    size: nat,
) -> Seq<u8> {
    Seq::new(
        size,
        |k: int|
            mixed_line(pre_rom, offsets_diff, offset_base[k / 64], k / 64, mixing_numbers)[k % 64],
    )
}

/// The `size` bytes of the memory that `seed` expands to.
pub open spec fn generated(gen_type: RomGenerationType, seed: Seq<u8>, size: nat) -> Seq<u8> {
    match gen_type {
        RomGenerationType::FullRandom => digest::hprime_bytes(size, seed),
        RomGenerationType::TwoStep { pre_size, mixing_numbers } => assembled(
            digest::hprime_bytes(pre_size as nat, seed),
            relative_offsets(seed, 4),
            digest::hprime_bytes(size / 64, digest::blake2b_512(base_message(seed))),
            mixing_numbers as nat,
            size,
        ),
    }
}

/// What the seed of a memory of `size` bytes that is made from `key` is the digest of.
pub open spec fn seed_message(key: Seq<u8>, size: nat) -> Seq<u8> {
    bytes::le_bytes(size, 4) + key
}

/// The seed of a memory of `size` bytes that is made from `key`.
pub open spec fn rom_seed(key: Seq<u8>, size: nat) -> Seq<u8> {
    digest::blake2b_512(seed_message(key, size))
}

impl RomGenerationType {
    /// Whether a memory of `size` bytes can be generated in this way.
    pub fn accepts(self, size: usize) -> (accepted: bool)
        ensures
            accepted == (valid_rom_size(size as int) && valid_generation(self, size as int)),
    {
        if size < DATASET_ACCESS_SIZE || size % DATASET_ACCESS_SIZE != 0 || size
            > u32::MAX as usize {
            return false;
        }
        match self {
            RomGenerationType::FullRandom => true,
            RomGenerationType::TwoStep { pre_size, mixing_numbers } => pre_size
                >= DATASET_ACCESS_SIZE && pre_size % DATASET_ACCESS_SIZE == 0 && pre_size <= size
                && mixing_numbers >= 1,
        }
    }
}

impl Rom {
    /// Whether the memory has a size that a memory can have.
    pub open spec fn wf(self) -> bool {
        valid_rom_size(self.data@.len() as int)
    }

    /// Creates the memory of `size` bytes that `key` and `gen_type` determine.
    ///
    /// The same inputs give the same memory.
    pub fn new(key: &[u8], gen_type: RomGenerationType, size: usize) -> (rom: Rom)
        requires
            valid_rom_size(size as int),
            valid_generation(gen_type, size as int),
        ensures
            rom.wf(),
            rom.data@.len() == size,
            rom.data@ == generated(gen_type, rom_seed(key@, size as nat), size as nat),
            rom.data@ == generated(
                gen_type,
                digest::blake2b_512(bytes::le_bytes(size as nat, 4) + key@),
                size as nat,
            ),
            gen_type is FullRandom ==> rom.data@ == digest::hprime_bytes(
                size as nat,
                digest::blake2b_512(bytes::le_bytes(size as nat, 4) + key@),
            ),
            gen_type is TwoStep ==> forall|g: u8|
                g < 4 ==> #[trigger] offset_digest_len(rom_seed(key@, size as nat), g) == 64,
            gen_type matches RomGenerationType::TwoStep { pre_size, .. } ==> digest::hprime_bytes(
                pre_size as nat,
                rom_seed(key@, size as nat),
            ).len() == pre_size,
            rom.digest.0@ == digest::blake2b_512(rom.data@),
    {
        let mut data: Vec<u8> = vec![0u8; size];
        let mut context = blake2b_start(&u32_to_le(size as u32));
        proof {
            bytes::lemma_le_bytes_len(size as nat, 4);
        }
        blake2b_update(&mut context, key);
        let seed = blake2b_finalize(context);
        let digest = random_gen(gen_type, seed, data.as_mut_slice());
        Rom { digest, data }
    }

    /// The line at index `i`, counted modulo the number of lines.
    pub fn at(&self, i: u32) -> (line: &[u8; DATASET_ACCESS_SIZE])
        requires
            self.wf(),
        ensures
            line@ == rom_line(self.data@, i as int),
            forall|k: int|
                0 <= k < 64 ==> #[trigger] line@[k] == self.data@[64 * (i as int % (
                self.data@.len() as int / 64)) + k],
    {
        let nb_lines: usize = self.data.len() / DATASET_ACCESS_SIZE;
        let index: usize = i as usize % nb_lines;
        let start: usize = index * DATASET_ACCESS_SIZE;
        let bytes: &[u8] = self.data.as_slice();
        as_array::<DATASET_ACCESS_SIZE>(&bytes[start..start + DATASET_ACCESS_SIZE])
    }
}

/// The 32 little-endian 16-bit numbers in a digest.
pub fn digest_to_u16s(digest: &[u8; 64]) -> (numbers: Vec<u16>)
    ensures
        numbers@ == u16s_of(digest@),
{
    let mut numbers: Vec<u16> = Vec::new();
    let mut k: usize = 0;
    while k < 32
        invariant
            k <= 32,
            numbers@ == u16s_of(digest@).take(k as int),
        decreases 32 - k,
    {
        let number: u16 = u16_from_le(&digest[2 * k..2 * k + 2]);
        numbers.push(number);
        k += 1;
        assert(numbers@ =~= u16s_of(digest@).take(k as int));
    }
    assert(numbers@ =~= u16s_of(digest@));
    numbers
}

/// The relative offsets of the two-step generation, shared by all lines.
pub fn generation_offsets(seed: &[u8; 64]) -> (offsets: Vec<u16>)
    ensures
        offsets@ == relative_offsets(seed@, 4),
        offsets@.len() == 128,
        forall|g: u8| g < 4 ==> #[trigger] offset_digest_len(seed@, g) == 64,
{
    let mut offsets: Vec<u16> = Vec::new();
    let mut i: u32 = 0;
    while i < OFFSET_LOOPS
        invariant
            i <= OFFSET_LOOPS,
            offsets@ == relative_offsets(seed@, i as nat),
            offsets@.len() == 32 * i,
            forall|g: u8| g < i ==> #[trigger] offset_digest_len(seed@, g) == 64,
        decreases OFFSET_LOOPS - i,
    {
        let mut context = blake2b_start(seed);
        blake2b_update(&mut context, "generation offset".as_bytes());
        proof {
            lemma_tag_lengths();
            bytes::lemma_le_bytes_len(i as nat, 4);
        }
        blake2b_update(&mut context, &u32_to_le(i));
        let command = blake2b_finalize(context);
        let mut group = digest_to_u16s(&command);
        offsets.append(&mut group);
        proof {
            reveal_with_fuel(bytes::le_bytes, 5);
            assert(bytes::le_bytes(i as nat, 4) =~= seq![i as u8, 0u8, 0u8, 0u8]);
        }
        i += 1;
    }
    offsets
}

/// One base offset for each of `nb_lines` lines of the memory.
pub fn generation_base(seed: &[u8; 64], nb_lines: usize) -> (offset_base: Vec<u8>)
    requires
        nb_lines > 0,
    ensures
        offset_base@ == digest::hprime_bytes(
            nb_lines as nat,
            digest::blake2b_512(base_message(seed@)),
        ),
        offset_base@.len() == nb_lines,
{
    let mut offset_base: Vec<u8> = vec![0u8; nb_lines];
    let mut context = blake2b_start(seed);
    blake2b_update(&mut context, "generation base".as_bytes());
    let offset_base_input = blake2b_finalize(context);
    hprime(offset_base.as_mut_slice(), &offset_base_input);
    offset_base
}

/// The lengths of the two texts that tell the digests of the two-step generation apart.
pub proof fn lemma_tag_lengths()
    ensures
        "generation offset".spec_bytes().len() == 17,
        "generation base".spec_bytes().len() == 15,
{
    reveal_strlit("generation offset");
    vstd::utf8::is_ascii_chars_encode_utf8("generation offset"@);
    reveal_strlit("generation base");
    vstd::utf8::is_ascii_chars_encode_utf8("generation base"@);
}

/// Combines `input` into `out` with exclusive or.
pub fn xorbuf(out: &mut [u8], input: &[u8])
    requires
        old(out)@.len() == input@.len(),
    ensures
        final(out)@ == xored(old(out)@, input@),
        final(out)@.len() == old(out)@.len(),
        forall|k: int|
            0 <= k < input@.len() ==> #[trigger] final(out)@[k] == old(out)@[k] ^ input@[k],
{
    let ghost before = out@;
    let mut i: usize = 0;
    while i < input.len()
        invariant
            i <= input@.len(),
            before.len() == input@.len(),
            out@.len() == before.len(),
            forall|j: int| 0 <= j < i ==> out@[j] == before[j] ^ input@[j],
            forall|j: int| i <= j < before.len() ==> out@[j] == before[j],
        decreases input@.len() - i,
    {
        out[i] = out[i] ^ input[i];
        i += 1;
    }
    assert(out@ =~= xored(before, input@));
}

/// Line `i` of a memory that is combined from the small memory `pre_rom`.
pub fn assemble_line(
    pre_rom: &[u8],
    offsets_diff: &[u16],
    base: u8,
    i: usize,
    mixing_numbers: usize,
) -> (line: [u8; DATASET_ACCESS_SIZE])
    requires
        pre_rom@.len() >= 64,
        pre_rom@.len() % 64 == 0,
        offsets_diff@.len() > 0,
        i + 0xff + 0xffff <= usize::MAX,
        mixing_numbers >= 1,
    ensures
        line@ == mixed_line(pre_rom@, offsets_diff@, base, i as int, mixing_numbers as nat),
{
    let lines: usize = pre_rom.len() / DATASET_ACCESS_SIZE;
    let first: usize = (i % lines) * DATASET_ACCESS_SIZE;
    let mut line: [u8; DATASET_ACCESS_SIZE] = *as_array::<DATASET_ACCESS_SIZE>(
        &pre_rom[first..first + DATASET_ACCESS_SIZE],
    );
    let mut d: usize = 1;
    while d < mixing_numbers
        invariant
            1 <= d <= mixing_numbers,
            64 * lines <= pre_rom@.len() <= usize::MAX,
            lines == pre_rom@.len() / 64,
            lines > 0,
            offsets_diff@.len() > 0,
            i + 0xff + 0xffff <= usize::MAX,
            line@ == mixed_line(pre_rom@, offsets_diff@, base, i as int, d as nat),
        decreases mixing_numbers - d,
    {
        let diff: u16 = offsets_diff[(d - 1) % offsets_diff.len()];
        let source: usize = (i + base as usize + diff as usize) % lines;
        let off: usize = source * DATASET_ACCESS_SIZE;
        xorbuf(&mut line, &pre_rom[off..off + DATASET_ACCESS_SIZE]);
        d += 1;
    }
    line
}

/// Fills `output` line by line, combining lines of the small memory `pre_rom`.
pub fn assemble(
    pre_rom: &[u8],
    offsets_diff: &[u16],
    offset_base: &[u8],
    mixing_numbers: usize,
    output: &mut [u8],
)
    requires
        pre_rom@.len() >= 64,
        pre_rom@.len() % 64 == 0,
        offsets_diff@.len() > 0,
        old(output)@.len() == 64 * offset_base@.len(),
        mixing_numbers >= 1,
    ensures
        final(output)@ == assembled(
            pre_rom@,
            offsets_diff@,
            offset_base@,
            mixing_numbers as nat,
            old(output)@.len(),
        ),
        final(output)@.len() == old(output)@.len(),
{
    let ghost want = assembled(
        pre_rom@,
        offsets_diff@,
        offset_base@,
        mixing_numbers as nat,
        output@.len(),
    );
    let nb_lines: usize = offset_base.len();
    let size: usize = output.len();
    let mut i: usize = 0;
    while i < nb_lines
        invariant
            i <= nb_lines,
            nb_lines == offset_base@.len(),
            size == 64 * nb_lines,
            pre_rom@.len() >= 64,
            pre_rom@.len() % 64 == 0,
            offsets_diff@.len() > 0,
            mixing_numbers >= 1,
            want == assembled(
                pre_rom@,
                offsets_diff@,
                offset_base@,
                mixing_numbers as nat,
                size as nat,
            ),
            output@.len() == size,
            forall|k: int| 0 <= k < 64 * i ==> output@[k] == want[k],
        decreases nb_lines - i,
    {
        let line = assemble_line(pre_rom, offsets_diff, offset_base[i], i, mixing_numbers);
        let mut j: usize = 0;
        while j < DATASET_ACCESS_SIZE
            invariant
                j <= 64,
                i < nb_lines,
                size == 64 * nb_lines,
                output@.len() == size,
                want.len() == size,
                forall|k: int| 64 * i <= k < 64 * i + 64 ==> want[k] == line@[k - 64 * i],
                forall|k: int| 0 <= k < 64 * i + j ==> output@[k] == want[k],
            decreases 64 - j,
        {
            output[i * DATASET_ACCESS_SIZE + j] = line[j];
            j += 1;
        }
        i += 1;
    }
    assert(output@ =~= want);
}

/// Fills `output` with the memory that `seed` expands to, and returns its digest.
pub fn random_gen(gen_type: RomGenerationType, seed: [u8; 64], output: &mut [u8]) -> (digest:
    RomDigest)
    requires
        old(output)@.len() > 0,
        gen_type is TwoStep ==> old(output)@.len() % 64 == 0,
        valid_generation(gen_type, old(output)@.len() as int),
    ensures
        final(output)@ == generated(gen_type, seed@, old(output)@.len()),
        final(output)@.len() == old(output)@.len(),
        gen_type is FullRandom ==> final(output)@ == digest::hprime_bytes(
            old(output)@.len(),
            seed@,
        ),
        gen_type is TwoStep ==> forall|g: u8|
            g < 4 ==> #[trigger] offset_digest_len(seed@, g) == 64,
        gen_type matches RomGenerationType::TwoStep { pre_size, .. } ==> digest::hprime_bytes(
            pre_size as nat,
            seed@,
        ).len() == pre_size,
        digest.0@ == digest::blake2b_512(final(output)@),
{
    match gen_type {
        RomGenerationType::TwoStep { pre_size, mixing_numbers } => {
            let mut pre_rom: Vec<u8> = vec![0u8; pre_size];
            hprime(pre_rom.as_mut_slice(), &seed);
            let offsets_diff = generation_offsets(&seed);
            let offset_base = generation_base(&seed, output.len() / DATASET_ACCESS_SIZE);
            assemble(
                pre_rom.as_slice(),
                offsets_diff.as_slice(),
                offset_base.as_slice(),
                mixing_numbers,
                output,
            );
        },
        RomGenerationType::FullRandom => {
            hprime(output, &seed);
        },
    }
    RomDigest(blake2b_finalize(blake2b_start(output)))
}

} // verus!
