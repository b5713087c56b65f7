//! # Ashmaize: a widely portable, ASIC resistant hash algorithm
//!
//! Ashmaize is a proof-of-work hash that is somewhat resistant to dedicated hardware, yet simple
//! to implement. A digest comes out of a small virtual machine that runs random programs against a
//! large read-only memory.
//!
//! First generate the memory, a [`Rom`]. It is generated once and can serve any number of
//! computations. Then [`hash`] runs the machine on it.
//!
//! ```
//! use ashmaize::{hash, Rom, RomGenerationType};
//!
//! let rom = Rom::new(b"seed", RomGenerationType::FullRandom, 16 * 1_024);
//! let digest = hash(b"salt", &rom, 8, 256);
//! ```

use vstd::prelude::*;

pub mod bytes;
pub mod digest;
pub mod hex;
pub mod instruction;
pub mod laws;
pub mod program;
pub mod rom;
pub mod vm;
pub mod word;

pub use instruction::Instruction;
pub use program::Program;
pub use rom::{Rom, RomGenerationType};
pub use vm::VM;

verus! {

/// The state of the machine that computes a digest, after `loops` loops of `instrs` instructions.
pub open spec fn machine_state(
    salt: Seq<u8>,
    rom_digest: Seq<u8>,
    rom: Seq<u8>,
    loops: nat,
    instrs: nat,
) -> vm::State {
    let init = digest::hprime_bytes(448, rom_digest + salt);
    vm::after_loops(vm::initial_state(init, instrs), rom, instrs, loops)
}

/// The digest of `salt` on a memory, after `loops` loops of `instrs` instructions.
pub open spec fn hash_of(
    salt: Seq<u8>,
    rom_digest: Seq<u8>,
    rom: Seq<u8>,
    loops: nat,
    instrs: nat,
) -> Seq<u8> {
    vm::machine_result(machine_state(salt, rom_digest, rom, loops, instrs))
}

/// Computes the digest of `salt` on the memory `rom`, with `nb_loops` loops of `nb_instrs`
/// instructions each.
///
/// At least 2 loops and 128 instructions are needed. The last precondition keeps the bytes that
/// the machine can digest within the 64 bits in which BLAKE2b counts them.
pub fn hash(salt: &[u8], rom: &Rom, nb_loops: u32, nb_instrs: u32) -> (result: [u8; 64])
    requires
        rom.wf(),
        nb_loops >= 2,
        nb_instrs >= 128,
        nb_instrs * 20 <= usize::MAX,
        64 + nb_loops * (128 * nb_instrs + 8) <= u64::MAX,
    ensures
        result@ == hash_of(
            salt@,
            rom.digest.0@,
            rom.data@,
            nb_loops as nat,
            nb_instrs as nat,
        ),
{
    let mut machine = VM::new(&rom.digest, nb_instrs, salt);
    let ghost start = machine@;
    let ghost step: int = 128 * nb_instrs + 8;
    let mut i: u32 = 0;
    while i < nb_loops
        invariant
            i <= nb_loops,
            rom.wf(),
            nb_instrs >= 128,
            step == 128 * nb_instrs + 8,
            64 + nb_loops * step <= u64::MAX,
            machine.wf(),
            machine@ == vm::after_loops(start, rom.data@, nb_instrs as nat, i as nat),
            machine@.program.len() >= 20,
            machine@.prog_digest.len() <= 64 + i * step,
            machine@.mem_digest.len() <= 64 + i * step,
        decreases nb_loops - i,
    {
        assert((i + 1) * step <= nb_loops * step && (i + 1) * step == i * step + step)
            by (nonlinear_arith)
            requires
                i + 1 <= nb_loops,
                step >= 0,
        ;
        machine.execute(rom, nb_instrs);
        i += 1;
    }
    machine.finalize()
}

} // verus!
