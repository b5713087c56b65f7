//! Hexadecimal text.

use vstd::prelude::*;

verus! {

/// `String::push` puts the character behind the text.
pub assume_specification[ String::push ](s: &mut String, ch: char)
    ensures
        final(s)@ == old(s)@.push(ch),
;

/// The lower-case hexadecimal digit of value `d`.
pub open spec fn hex_digit(d: int) -> char {
    seq!['0', '1', '2', '3', '4', '5', '6', '7', '8', '9', 'a', 'b', 'c', 'd', 'e', 'f'][d]
}

/// The `width` lowest hexadecimal digits of `x`, most significant digit first.
pub open spec fn hex(x: nat, width: nat) -> Seq<char>
    decreases width,
{
    if width == 0 {
        Seq::empty()
    } else {
        hex(x / 16, (width - 1) as nat).push(hex_digit(x as int % 16))
    }
}

/// The lower-case hexadecimal digit of value `d`.
pub fn digit(d: u64) -> (c: char)
    requires
        d < 16,
    ensures
        c == hex_digit(d as int),
{
    let digits = ['0', '1', '2', '3', '4', '5', '6', '7', '8', '9', 'a', 'b', 'c', 'd', 'e', 'f'];
    digits[d as usize]
}

/// Puts the `width` lowest hexadecimal digits of `x` behind the text.
pub fn push_hex(out: &mut String, x: u64, width: u32)
    ensures
        final(out)@ == old(out)@ + hex(x as nat, width as nat),
    decreases width,
{
    if width > 0 {
        push_hex(out, x / 16, width - 1);
        out.push(digit(x % 16));
    }
    assert(out@ =~= old(out)@ + hex(x as nat, width as nat));
}

} // verus!
