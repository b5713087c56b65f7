//! Operations on 64-bit words.

use vstd::prelude::*;

verus! {

/// Whether bit `i` of `x` is set, bit 0 being the least significant one.
pub open spec fn bit(x: u64, i: int) -> bool {
    (x >> (i as u64)) & 1 == 1
}

/// The number whose binary digits are `bits`, least significant digit first.
pub open spec fn from_bits(bits: Seq<bool>) -> nat
    decreases bits.len(),
{
    if bits.len() == 0 {
        0
    } else {
        (if bits[0] {
            1nat
        } else {
            0nat
        }) + 2 * from_bits(bits.drop_first())
    }
}

/// `x` with every bit moved up by `n` places, the bits that leave at the top coming back at the
/// bottom.
pub open spec fn rotated_left(x: u64, n: int) -> u64 {
    from_bits(Seq::new(64, |i: int| bit(x, (i - n) % 64))) as u64
}

/// `x` with every bit moved down by `n` places, the bits that leave at the bottom coming back at
/// the top.
pub open spec fn rotated_right(x: u64, n: int) -> u64 {
    from_bits(Seq::new(64, |i: int| bit(x, (i + n) % 64))) as u64
}

/// `x` with its bits in the opposite order.
pub open spec fn reversed(x: u64) -> u64 {
    from_bits(Seq::new(64, |i: int| bit(x, 63 - i))) as u64
}

/// `r` is the largest number whose square is at most `x`.
pub open spec fn is_isqrt(r: nat, x: nat) -> bool {
    r * r <= x < (r + 1) * (r + 1)
}

/// The square root of `x`, rounded down.
pub open spec fn isqrt_of(x: nat) -> nat {
    choose|r: nat| is_isqrt(r, x)
}

/// A word whose value is less than 2 to the power of `n` is the number written by its `n` lowest
/// bits.
proof fn lemma_low_bits(y: u64, n: nat)
    requires
        n <= 64,
        n < 64 ==> y < (1u64 << (n as u64)),
    ensures
        from_bits(Seq::new(n, |i: int| bit(y, i))) == y,
    decreases n,
{
    let bits = Seq::new(n, |i: int| bit(y, i));
    if n == 0 {
        assert(y < (1u64 << 0u64) ==> y == 0) by (bit_vector);
    } else {
        let half = y >> 1;
        let k = n as u64;
        let m = (n - 1) as u64;
        assert(half < (1u64 << m)) by (bit_vector)
            requires
                half == y >> 1,
                0 < k <= 64,
                m == k - 1,
                k < 64 ==> y < (1u64 << k),
        ;
        lemma_low_bits(half, (n - 1) as nat);
        assert forall|i: int| 0 <= i < n - 1 implies bit(half, i) == bit(y, i + 1) by {
            let j = i as u64;
            let k = (i + 1) as u64;
            assert((y >> 1) >> j == y >> k) by (bit_vector)
                requires
                    j < 63,
                    k == j + 1,
            ;
        }
        assert(bits.drop_first() =~= Seq::new((n - 1) as nat, |i: int| bit(half, i)));
        assert(y >> 0u64 == y) by (bit_vector);
        assert(y == (y & 1) + 2 * (y >> 1) && (y & 1 == 0 || y & 1 == 1)) by (bit_vector);
    }
}

/// A word is the number that its 64 bits write down.
pub proof fn lemma_bits_determine(y: u64, bits: Seq<bool>)
    requires
        bits.len() == 64,
        forall|i: int| 0 <= i < 64 ==> bits[i] == #[trigger] bit(y, i),
    ensures
        from_bits(bits) == y,
{
    lemma_low_bits(y, 64);
    assert(bits =~= Seq::new(64, |i: int| bit(y, i)));
}

/// A number of at most 64 binary digits has these digits as its bits.
proof fn lemma_bits_of_digits(bits: Seq<bool>)
    requires
        bits.len() <= 64,
    ensures
        from_bits(bits) <= u64::MAX,
        bits.len() < 64 ==> from_bits(bits) < (1u64 << (bits.len() as u64)),
        forall|i: int| 0 <= i < bits.len() ==> bits[i] == #[trigger] bit(from_bits(bits) as u64, i),
    decreases bits.len(),
{
    let n = bits.len();
    if n == 0 {
        assert(0u64 < (1u64 << 0u64)) by (bit_vector);
    } else {
        let rest = bits.drop_first();
        lemma_bits_of_digits(rest);
        let half = from_bits(rest) as u64;
        let low: u64 = if bits[0] {
            1
        } else {
            0
        };
        let k = n as u64;
        let m = (n - 1) as u64;
        assert(2 * half + low <= 0xffff_ffff_ffff_ffff && (k < 64 ==> 2 * half + low < (1u64
            << k))) by (bit_vector)
            requires
                0 < k <= 64,
                m == k - 1,
                half < (1u64 << m),
                low <= 1,
        ;
        let y = from_bits(bits) as u64;
        assert(y == 2 * half + low);
        assert forall|i: int| 0 <= i < n implies bits[i] == #[trigger] bit(y, i) by {
            let j = i as u64;
            if i == 0 {
                assert((y >> 0u64) & 1 == low) by (bit_vector)
                    requires
                        y == 2 * half + low,
                        low <= 1,
                ;
            } else {
                let h = (i - 1) as u64;
                assert((y >> j) & 1 == (half >> h) & 1) by (bit_vector)
                    requires
                        y == 2 * half + low,
                        low <= 1,
                        0 < j < 64,
                        h == j - 1,
                ;
                assert(rest[i - 1] == bit(half, i - 1));
            }
        }
    }
}

/// The number written by 64 binary digits has these digits as its bits.
pub proof fn lemma_bits_of_number(bits: Seq<bool>)
    requires
        bits.len() == 64,
    ensures
        from_bits(bits) <= u64::MAX,
        forall|i: int| 0 <= i < 64 ==> bits[i] == #[trigger] bit(from_bits(bits) as u64, i),
{
    lemma_bits_of_digits(bits);
}

/// The bits of a rotated word.
pub proof fn lemma_bit_of_rotation(x: u64, n: int, j: int)
    requires
        0 <= j < 64,
    ensures
        bit(rotated_left(x, n), j) == bit(x, (j - n) % 64),
        bit(rotated_right(x, n), j) == bit(x, (j + n) % 64),
{
    let up = Seq::new(64, |i: int| bit(x, (i - n) % 64));
    let down = Seq::new(64, |i: int| bit(x, (i + n) % 64));
    lemma_bits_of_number(up);
    lemma_bits_of_number(down);
    assert(up[j] == bit(from_bits(up) as u64, j));
    assert(down[j] == bit(from_bits(down) as u64, j));
}

/// A rotation by 64 places more is the same rotation.
pub proof fn lemma_rotation_counts_modulo_64(x: u64, n: int)
    ensures
        rotated_left(x, n % 64) == rotated_left(x, n),
        rotated_right(x, n % 64) == rotated_right(x, n),
{
    assert(Seq::new(64, |i: int| bit(x, (i - n % 64) % 64)) =~= Seq::new(
        64,
        |i: int| bit(x, (i - n) % 64),
    ));
    assert(Seq::new(64, |i: int| bit(x, (i + n % 64) % 64)) =~= Seq::new(
        64,
        |i: int| bit(x, (i + n) % 64),
    ));
}

/// Rotates `x` up by `n` places; `n` counts modulo 64.
pub fn rotate_left(x: u64, n: u32) -> (r: u64)
    ensures
        r == rotated_left(x, n as int),
{
    let k: u32 = n % 64;
    let r: u64 = if k == 0 {
        x
    } else {
        (x << k) | (x >> (64 - k))
    };
    proof {
        let moved = Seq::new(64, |i: int| bit(x, (i - n) % 64));
        let k64 = k as u64;
        assert forall|i: int| 0 <= i < 64 implies moved[i] == #[trigger] bit(r, i) by {
            let j = i as u64;
            let src: u64 = ((i - n) % 64) as u64;
            assert(src == (if j >= k64 {
                j - k64
            } else {
                j + 64 - k64
            }));
            if k == 0 {
                assert(src == j);
            } else {
                let back = (64 - k64) as u64;
                assert((((x << k64) | (x >> back)) >> j) & 1 == (x >> src) & 1) by (bit_vector)
                    requires
                        0 < k64 < 64,
                        j < 64,
                        back == 64 - k64,
                        j >= k64 ==> src == j - k64,
                        j < k64 ==> src == j + 64 - k64,
                ;
            }
        }
        lemma_bits_determine(r, moved);
    }
    r
}

/// Rotates `x` down by `n` places; `n` counts modulo 64.
pub fn rotate_right(x: u64, n: u32) -> (r: u64)
    ensures
        r == rotated_right(x, n as int),
{
    let k: u32 = n % 64;
    let r: u64 = rotate_left(x, (64 - k) % 64);
    proof {
        let up = Seq::new(64, |i: int| bit(x, (i - ((64 - k) % 64)) % 64));
        let down = Seq::new(64, |i: int| bit(x, (i + n) % 64));
        assert(up =~= down);
    }
    r
}

/// Puts the bits of `x` in the opposite order.
pub fn reverse_bits(x: u64) -> (r: u64)
    ensures
        r == reversed(x),
{
    let a: u64 = ((x >> 1) & 0x5555_5555_5555_5555) | ((x & 0x5555_5555_5555_5555) << 1);
    let b: u64 = ((a >> 2) & 0x3333_3333_3333_3333) | ((a & 0x3333_3333_3333_3333) << 2);
    let c: u64 = ((b >> 4) & 0x0f0f_0f0f_0f0f_0f0f) | ((b & 0x0f0f_0f0f_0f0f_0f0f) << 4);
    let d: u64 = ((c >> 8) & 0x00ff_00ff_00ff_00ff) | ((c & 0x00ff_00ff_00ff_00ff) << 8);
    let e: u64 = ((d >> 16) & 0x0000_ffff_0000_ffff) | ((d & 0x0000_ffff_0000_ffff) << 16);
    let r: u64 = (e >> 32) | (e << 32);
    proof {
        let back = Seq::new(64, |i: int| bit(x, 63 - i));
        assert forall|i: int| 0 <= i < 64 implies back[i] == #[trigger] bit(r, i) by {
            let j = i as u64;
            let k = (63 - i) as u64;
            assert((r >> j) & 1 == (x >> k) & 1) by (bit_vector)
                requires
                    j < 64,
                    k == 63 - j,
                    a == ((x >> 1) & 0x5555_5555_5555_5555) | ((x & 0x5555_5555_5555_5555) << 1),
                    b == ((a >> 2) & 0x3333_3333_3333_3333) | ((a & 0x3333_3333_3333_3333) << 2),
                    c == ((b >> 4) & 0x0f0f_0f0f_0f0f_0f0f) | ((b & 0x0f0f_0f0f_0f0f_0f0f) << 4),
                    d == ((c >> 8) & 0x00ff_00ff_00ff_00ff) | ((c & 0x00ff_00ff_00ff_00ff) << 8),
                    e == ((d >> 16) & 0x0000_ffff_0000_ffff) | ((d & 0x0000_ffff_0000_ffff) << 16),
                    r == (e >> 32) | (e << 32),
            ;
        }
        lemma_bits_determine(r, back);
    }
    r
}

/// No number has two rounded-down square roots.
pub proof fn lemma_isqrt_unique(r: nat, x: nat)
    requires
        is_isqrt(r, x),
    ensures
        isqrt_of(x) == r,
{
    let s = isqrt_of(x);
    assert(is_isqrt(s, x));
    if s < r {
        assert((s + 1) * (s + 1) <= r * r) by (nonlinear_arith)
            requires
                s + 1 <= r,
        ;
    }
    if r < s {
        assert((r + 1) * (r + 1) <= s * s) by (nonlinear_arith)
            requires
                r + 1 <= s,
        ;
    }
}

/// The square root of `x`, rounded down.
pub fn isqrt(x: u64) -> (r: u64)
    ensures
        r == isqrt_of(x as nat),
        is_isqrt(r as nat, x as nat),
        r * r <= x < (r + 1) * (r + 1),
{
    let mut low: u64 = 0;
    let mut high: u64 = 0x1_0000_0000;
    while high - low > 1
        invariant
            low < high <= 0x1_0000_0000,
            low * low <= x < high * high,
        decreases high - low,
    {
        let mid: u64 = low + (high - low) / 2;
        assert(mid * mid <= 0xffff_ffff * 0xffff_ffff) by (nonlinear_arith)
            requires
                0 <= mid <= 0xffff_ffff,
        ;
        if mid * mid <= x {
            low = mid;
        } else {
            high = mid;
        }
    }
    proof {
        assert(high == low + 1);
        lemma_isqrt_unique(low as nat, x as nat);
    }
    low
}

/// The upper 64 bits of the 128-bit product of `a` and `b`.
pub fn mul_high(a: u64, b: u64) -> (r: u64)
    ensures
        r == (a * b) / 0x1_0000_0000_0000_0000,
{
    assert(0 <= a * b <= 0xffff_ffff_ffff_ffff * 0xffff_ffff_ffff_ffff) by (nonlinear_arith)
        requires
            0 <= a <= 0xffff_ffff_ffff_ffff,
            0 <= b <= 0xffff_ffff_ffff_ffff,
    ;
    let product: u128 = a as u128 * b as u128;
    (product / 0x1_0000_0000_0000_0000) as u64
}

} // verus!
