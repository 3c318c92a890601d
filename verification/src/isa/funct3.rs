//! `funct3` values for load/store, branch and OP/OP-IMM groups.

use vstd::prelude::*;

verus! {

// Loads.
pub const LB: u32 = 0b000;
pub const LH: u32 = 0b001;
pub const LW: u32 = 0b010;
pub const LBU: u32 = 0b100;
pub const LHU: u32 = 0b101;
// Stores.
pub const SB: u32 = 0b000;
pub const SH: u32 = 0b001;
pub const SW: u32 = 0b010;
// Branches.
pub const BEQ: u32 = 0b000;
pub const BNE: u32 = 0b001;
pub const BLT: u32 = 0b100;
pub const BGE: u32 = 0b101;
pub const BLTU: u32 = 0b110;
pub const BGEU: u32 = 0b111;

} // verus!
