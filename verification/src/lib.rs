//! An executable RV32IM + Zicsr functional model of a RISC-V core:
//! instruction decode, a register file, a byte-addressable memory, a CSR
//! container, and the fetch/decode/execute step with its trap rules.
//! Instructions of extensions that are not implemented yet (compressed,
//! atomics, floating point) raise `Trap::Unsupported` rather than silently
//! producing a wrong result.

pub mod word;
pub mod mem;
pub mod csr;
pub mod isa;
pub mod alu;
pub mod arch;
pub mod cpu;
pub mod cli;
pub mod properties;

pub use cpu::{Cpu, StopReason, Trap};
pub use mem::Memory;
