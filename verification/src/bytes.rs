//! Little-endian words and fixed-size pieces of byte slices.

use vstd::prelude::*;

verus! {

/// The number that `s` writes down in base 256, least significant byte first.
pub open spec fn le_value(s: Seq<u8>) -> nat
    decreases s.len(),
{
    if s.len() == 0 {
        0
    } else {
        s[0] as nat + 256 * le_value(s.drop_first())
    }
}

/// The `n` lowest base-256 digits of `x`, least significant digit first.
pub open spec fn le_bytes(x: nat, n: nat) -> Seq<u8>
    decreases n,
{
    if n == 0 {
        Seq::empty()
    } else {
        seq![(x % 256) as u8] + le_bytes(x / 256, (n - 1) as nat)
    }
}

/// The `i`-th 8-byte word of `s`, read as a little-endian number.
pub open spec fn word_at(s: Seq<u8>, i: int) -> u64 {
    le_value(s.subrange(8 * i, 8 * i + 8)) as u64
}

/// The `i`-th piece of `s` when `s` is cut into pieces of `size` bytes.
pub open spec fn piece(s: Seq<u8>, size: int, i: int) -> Seq<u8> {
    s.subrange(size * i, size * i + size)
}

pub proof fn lemma_le_bytes_len(x: nat, n: nat)
    ensures
        le_bytes(x, n).len() == n,
    decreases n,
{
    if n > 0 {
        lemma_le_bytes_len(x / 256, (n - 1) as nat);
    }
}

/// The `n` lowest base-256 digits of a number that has no others write down the number.
pub proof fn lemma_le_value_of_bytes(x: nat, n: nat)
    requires
        x < vstd::arithmetic::power::pow(256, n),
    ensures
        le_value(le_bytes(x, n)) == x,
    decreases n,
{
    reveal(vstd::arithmetic::power::pow);
    if n > 0 {
        let rest = le_bytes(x / 256, (n - 1) as nat);
        lemma_le_value_of_bytes(x / 256, (n - 1) as nat);
        assert(le_bytes(x, n).drop_first() =~= rest);
    }
}

/// The number written by two little-endian bytes.
pub fn u16_from_le(s: &[u8]) -> (x: u16)
    requires
        s@.len() == 2,
    ensures
        x == le_value(s@),
{
    proof {
        reveal_with_fuel(le_value, 3);
    }
    s[0] as u16 + 256 * (s[1] as u16)
}

/// The number written by eight little-endian bytes.
pub fn u64_from_le(s: &[u8]) -> (x: u64)
    requires
        s@.len() == 8,
    ensures
        x == le_value(s@),
{
    proof {
        reveal_with_fuel(le_value, 9);
    }
    let high: u64 = s[4] as u64 + 256 * (s[5] as u64 + 256 * (s[6] as u64 + 256 * (s[7] as u64)));
    s[0] as u64 + 256 * (s[1] as u64 + 256 * (s[2] as u64 + 256 * (s[3] as u64 + 256 * high)))
}

/// The `i`-th word of `s`.
pub fn read_word(s: &[u8], i: usize) -> (x: u64)
    requires
        8 * i + 8 <= s@.len(),
    ensures
        x == word_at(s@, i as int),
{
    assert(s@.len() == s.len());
    u64_from_le(&s[8 * i..8 * i + 8])
}

/// The four little-endian bytes of `x`.
pub fn u32_to_le(x: u32) -> (s: [u8; 4])
    ensures
        s@ == le_bytes(x as nat, 4),
{
    let x1: u32 = x / 256;
    let x2: u32 = x1 / 256;
    let x3: u32 = x2 / 256;
    let s = [(x % 256) as u8, (x1 % 256) as u8, (x2 % 256) as u8, (x3 % 256) as u8];
    proof {
        reveal_with_fuel(le_bytes, 5);
        assert(s@ =~= le_bytes(x as nat, 4));
    }
    s
}

/// The eight little-endian bytes of `x`.
pub fn u64_to_le(x: u64) -> (s: [u8; 8])
    ensures
        s@ == le_bytes(x as nat, 8),
{
    let x1: u64 = x / 256;
    let x2: u64 = x1 / 256;
    let x3: u64 = x2 / 256;
    let x4: u64 = x3 / 256;
    let x5: u64 = x4 / 256;
    let x6: u64 = x5 / 256;
    let x7: u64 = x6 / 256;
    let s = [
        (x % 256) as u8,
        (x1 % 256) as u8,
        (x2 % 256) as u8,
        (x3 % 256) as u8,
        (x4 % 256) as u8,
        (x5 % 256) as u8,
        (x6 % 256) as u8,
        (x7 % 256) as u8,
    ];
    proof {
        reveal_with_fuel(le_bytes, 9);
        assert(s@ =~= le_bytes(x as nat, 8));
    }
    s
}

/// Wraps `<&[u8; N]>::try_from` of a slice, which succeeds exactly when the slice has `N`
/// elements: the same bytes, seen as an array.
#[verifier::external_body]
pub(crate) fn as_array<const N: usize>(s: &[u8]) -> (a: &[u8; N])
    requires
        s@.len() == N,
    ensures
        a@ == s@,
{
    <&[u8; N]>::try_from(s).unwrap()
}

} // verus!
