//! Parameters of the virtual machine that the debugger relies on.

use vstd::prelude::*;

verus! {

/// Number of registers of the machine.
pub const REGISTER_COUNT: usize = 64;

/// Size of a machine word, in bytes.
pub const WORD_SIZE: usize = 8;

/// Size of the machine's memory, in bytes.
pub const MAX_RAM: u64 = 16 * 1024 * 64 * 8;

/// Size of one instruction, in bytes.
pub const INSTRUCTION_SIZE: u64 = 4;

} // verus!
