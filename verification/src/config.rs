//! Memory-map configuration constants shared by the assembler and the
//! execution engine.

use vstd::prelude::*;

verus! {

/// Number of architectural registers in the RV32I register file.
pub const NUM_REGISTERS: usize = 32;

/// Base address of the `.text` (code) segment.
pub const TEXT_BASE: u32 = 0x0040_0000;

/// Base address of the `.data` segment.
pub const DATA_BASE: u32 = 0x1001_0000;

/// Base address of the stack segment.
pub const STACK_BASE: u32 = 0x7FFF_FFFF;

/// Size of the stack segment in bytes.
pub const STACK_SIZE: usize = 1024 * 1024;

} // verus!
