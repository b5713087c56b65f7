//! The program of the virtual machine: a buffer of encoded instructions.

use crate::bytes::as_array;
use crate::digest::hprime;
use crate::instruction::INSTR_SIZE;
use crate::{bytes, digest};
use vstd::prelude::*;

verus! {

/// A sequence of encoded instructions, one behind the other.
pub struct Program {
    pub instructions: Vec<u8>,
}

/// The instruction at index `i` of a program; an index past the end wraps around.
pub open spec fn instruction_at(instructions: Seq<u8>, i: int) -> Seq<u8> {
    bytes::piece(instructions, 20, i % (instructions.len() as int / 20))
}

impl Program {
    /// A program of `nb_instrs` instructions, all bytes zero.
    pub fn new(nb_instrs: u32) -> (program: Program)
        requires
            nb_instrs * INSTR_SIZE <= usize::MAX,
        ensures
            program.instructions@ == Seq::new((nb_instrs * INSTR_SIZE) as nat, |i: int| 0u8),
    {
        let size: usize = (nb_instrs as usize) * INSTR_SIZE;
        let instructions: Vec<u8> = vec![0u8; size];
        proof {
            assert(instructions@ =~= Seq::new((nb_instrs * INSTR_SIZE) as nat, |i: int| 0u8));
        }
        Program { instructions }
    }

    /// The instruction at index `i`, counted modulo the number of instructions.
    pub fn at(&self, i: u32) -> (code: &[u8; INSTR_SIZE])
        requires
            self.instructions@.len() >= INSTR_SIZE,
        ensures
            code@ == instruction_at(self.instructions@, i as int),
            forall|k: int|
                0 <= k < 20 ==> #[trigger] code@[k] == self.instructions@[20 * (i as int % (
                self.instructions@.len() as int / 20)) + k],
    {
        let nb_instructions: usize = self.instructions.len() / INSTR_SIZE;
        let index: usize = i as usize % nb_instructions;
        let start: usize = index * INSTR_SIZE;
        let bytes: &[u8] = self.instructions.as_slice();
        as_array::<INSTR_SIZE>(&bytes[start..start + INSTR_SIZE])
    }

    /// Replaces all instructions by those that `seed` expands to.
    pub fn shuffle(&mut self, seed: &[u8; 64])
        requires
            old(self).instructions@.len() > 0,
        ensures
            final(self).instructions@ == digest::hprime_bytes(
                old(self).instructions@.len(),
                seed@,
            ),
            final(self).instructions@.len() == old(self).instructions@.len(),
    {
        hprime(self.instructions.as_mut_slice(), seed)
    }
}

} // verus!
