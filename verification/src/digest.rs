//! The two cryptographic primitives of the hash, BLAKE2b with a 64-byte output and the
//! variable-length hash of Argon2, both taken from `cryptoxide`.
//!
//! The contracts of the functions that call `cryptoxide` are taken as they stand, without proof.
//! They are the only facts about `cryptoxide` on which the rest of the library relies.

use cryptoxide::hashing::blake2b::{Blake2b, Context};
use cryptoxide::kdf::argon2;
use vstd::prelude::*;

verus! {

/// A running BLAKE2b computation, `cryptoxide::hashing::blake2b::Context`.
#[verifier::external_type_specification]
#[verifier::external_body]
pub struct ExContext<const BITS: usize>(Context<BITS>);

/// The bytes that a running BLAKE2b computation has taken in so far, first byte first.
pub uninterp spec fn absorbed(context: Context<512>) -> Seq<u8>;

/// The unkeyed BLAKE2b digest of `message` with an output of 64 bytes.
pub uninterp spec fn blake2b_512(message: Seq<u8>) -> Seq<u8>;

/// The `len` bytes that the variable-length hash of Argon2, often written H', gives for `input`.
pub uninterp spec fn hprime_bytes(len: nat, input: Seq<u8>) -> Seq<u8>;

/// Wraps `Blake2b::<512>::new`: an unkeyed computation that has taken in nothing.
#[verifier::external_body]
pub(crate) fn blake2b_new() -> (context: Context<512>)
    ensures
        absorbed(context) == Seq::<u8>::empty(),
{
    Blake2b::<512>::new()
}

/// Wraps `Context::<512>::update_mut`: the computation takes in `input` behind what it has
/// taken in before.
///
/// The computation counts its bytes in 64 bits and an overflow of the counter can panic, hence
/// the precondition. A slice of bytes is at most `isize::MAX` long, which is why at most
/// `i64::MAX` bytes taken in before leave room for any `input`; the second postcondition
/// repeats that the counter has not overflowed.
#[verifier::external_body]
pub(crate) fn blake2b_update(context: &mut Context<512>, input: &[u8])
    requires
        absorbed(*old(context)).len() + input@.len() <= u64::MAX || absorbed(*old(context)).len()
            <= i64::MAX,
    ensures
        absorbed(*final(context)) == absorbed(*old(context)) + input@,
        absorbed(*final(context)).len() <= u64::MAX,
{
    context.update_mut(input);
}

/// Wraps `Context::<512>::clone`: a second computation that has taken in the same bytes.
#[verifier::external_body]
pub(crate) fn blake2b_clone(context: &Context<512>) -> (copy: Context<512>)
    ensures
        absorbed(copy) == absorbed(*context),
{
    context.clone()
}

/// Wraps `Context::<512>::finalize`: the digest of all bytes taken in.
///
/// Finishing moves the 64-bit byte counter to the number of bytes taken in, hence the
/// precondition.
#[verifier::external_body]
pub(crate) fn blake2b_finalize(context: Context<512>) -> (out: [u8; 64])
    requires
        absorbed(context).len() <= u64::MAX,
    ensures
        out@ == blake2b_512(absorbed(context)),
{
    context.finalize()
}

/// Wraps `argon2::hprime`: fills `output` with the hash of `input` that is as long as `output`.
///
/// An empty `output` makes the outside function panic.
#[verifier::external_body]
pub(crate) fn hprime(output: &mut [u8], input: &[u8])
    requires
        old(output)@.len() > 0,
    ensures
        final(output)@ == hprime_bytes(old(output)@.len(), input@),
        final(output)@.len() == old(output)@.len(),
{
    argon2::hprime(output, input)
}

/// A computation that has taken in `first` alone.
pub(crate) fn blake2b_start(first: &[u8]) -> (context: Context<512>)
    ensures
        absorbed(context) == first@,
        absorbed(context).len() <= u64::MAX,
{
    let mut context = blake2b_new();
    blake2b_update(&mut context, first);
    proof {
        assert(Seq::<u8>::empty() + first@ =~= first@);
    }
    context
}

} // verus!
