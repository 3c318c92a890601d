//! 7-bit major opcodes.

use vstd::prelude::*;

verus! {

pub const LOAD: u32 = 0x03;
pub const OP_IMM: u32 = 0x13;
pub const AUIPC: u32 = 0x17;
pub const STORE: u32 = 0x23;
pub const OP: u32 = 0x33;
pub const LUI: u32 = 0x37;
pub const BRANCH: u32 = 0x63;
pub const JALR: u32 = 0x67;
pub const JAL: u32 = 0x6F;
pub const MISC_MEM: u32 = 0x0F;
pub const SYSTEM: u32 = 0x73;
// Extensions that are recognized but not implemented.
pub const AMO: u32 = 0x2F;
pub const LOAD_FP: u32 = 0x07;
pub const STORE_FP: u32 = 0x27;
pub const MADD: u32 = 0x43;
pub const MSUB: u32 = 0x47;
pub const NMSUB: u32 = 0x4B;
pub const NMADD: u32 = 0x4F;
pub const OP_FP: u32 = 0x53;

} // verus!
