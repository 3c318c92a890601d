//! Standard CSR addresses (unprivileged and machine-level).

use vstd::prelude::*;

verus! {

// Machine information.
pub const MVENDORID: u32 = 0xF11;
pub const MARCHID: u32 = 0xF12;
pub const MIMPID: u32 = 0xF13;
pub const MHARTID: u32 = 0xF14;
// Machine trap/status.
pub const MSTATUS: u32 = 0x300;
pub const MISA: u32 = 0x301;
pub const MIE: u32 = 0x304;
pub const MTVEC: u32 = 0x305;
pub const MSCRATCH: u32 = 0x340;
pub const MEPC: u32 = 0x341;
pub const MCAUSE: u32 = 0x342;
pub const MTVAL: u32 = 0x343;
pub const MIP: u32 = 0x344;
// Counters (unprivileged read-only), low and high halves.
pub const CYCLE: u32 = 0xC00;
pub const TIME: u32 = 0xC01;
pub const INSTRET: u32 = 0xC02;
pub const CYCLEH: u32 = 0xC80;
pub const TIMEH: u32 = 0xC81;
pub const INSTRETH: u32 = 0xC82;

} // verus!
