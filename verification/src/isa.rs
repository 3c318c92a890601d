//! RISC-V ISA constants, register definitions, and RV32IM instruction decoding.
//!
//! Encoding is little-endian 32-bit. The field and immediate layouts below are
//! stated as arithmetic on the instruction word (bit `k` of `raw` is
//! `(raw / 2^k) % 2`), the way the ISA manual draws them.

use vstd::prelude::*;
use vstd::arithmetic::power2::{pow2, lemma2_to64};
use crate::word::{sext, lemma_as_i32};

pub mod opcode;
pub mod funct3;

verus! {

/// Logical register width in bits (RV32).
pub const XLEN: u32 = 32;

/// Number of integer registers (`x0`–`x31`).
pub const NUM_REGS: usize = 32;

/// ABI names for the 32 integer registers, indexed by register number.
pub const REG_NAMES: [&'static str; NUM_REGS] = [
    "zero", "ra", "sp", "gp", "tp", "t0", "t1", "t2", "s0", "s1", "a0", "a1", "a2", "a3", "a4",
    "a5", "a6", "a7", "s2", "s3", "s4", "s5", "s6", "s7", "s8", "s9", "s10", "s11", "t3", "t4",
    "t5", "t6",
];

/// `funct7` value that selects the ALU/compare "second" op (e.g. `sub`,
/// `sra`) within the `OP`/`OP-IMM` groups.
pub const ALT_FUNCT7: u32 = 0x20;

/// `funct7` value that selects the M extension within the `OP` group.
pub const M_FUNCT7: u32 = 0x01;

/// Return the ABI name for register `i` (masked to the register window).
pub fn reg_name(i: u32) -> (r: &'static str)
    ensures
        r == REG_NAMES@[(i % 32) as int],
{
    assert(i & 31 == i % 32) by (bit_vector);
    REG_NAMES[(i & 31) as usize]
}

/// `raw[6:0]`.
pub open spec fn opcode_of(raw: u32) -> u32 {
    raw % 0x80
}

/// `raw[11:7]`.
pub open spec fn rd_of(raw: u32) -> u32 {
    (raw / 0x80) % 0x20
}

/// `raw[14:12]`.
pub open spec fn funct3_of(raw: u32) -> u32 {
    (raw / 0x1000) % 0x8
}

/// `raw[19:15]`.
pub open spec fn rs1_of(raw: u32) -> u32 {
    (raw / 0x8000) % 0x20
}

/// `raw[24:20]`.
pub open spec fn rs2_of(raw: u32) -> u32 {
    (raw / 0x10_0000) % 0x20
}

/// `raw[31:25]`.
pub open spec fn funct7_of(raw: u32) -> u32 {
    raw / 0x200_0000
}

/// I-type immediate: `raw[31:20]`, signed 12-bit.
pub open spec fn imm_i_spec(raw: u32) -> int {
    sext((raw / 0x10_0000) as int, 0x1000)
}

/// S-type immediate: `raw[31:25] raw[11:7]`, signed 12-bit.
pub open spec fn imm_s_spec(raw: u32) -> int {
    sext(funct7_of(raw) * 0x20 + rd_of(raw), 0x1000)
}

/// B-type immediate: `raw[31] raw[7] raw[30:25] raw[11:8] 0`, signed 13-bit.
pub open spec fn imm_b_spec(raw: u32) -> int {
    sext(
        (raw / 0x8000_0000) * 0x1000 + ((raw / 0x80) % 2) * 0x800 + ((raw / 0x200_0000) % 0x40)
            * 0x20 + ((raw / 0x100) % 0x10) * 2,
        0x2000,
    )
}

/// U-type immediate: `raw[31:12]` followed by twelve zero bits, as a signed
/// 32-bit value.
pub open spec fn imm_u_spec(raw: u32) -> int {
    sext((raw / 0x1000) * 0x1000, 0x1_0000_0000)
}

/// J-type immediate: `raw[31] raw[19:12] raw[20] raw[30:21] 0`, signed 21-bit.
pub open spec fn imm_j_spec(raw: u32) -> int {
    sext(
        (raw / 0x8000_0000) * 0x10_0000 + ((raw / 0x1000) % 0x100) * 0x1000 + ((raw / 0x10_0000)
            % 2) * 0x800 + ((raw / 0x20_0000) % 0x400) * 2,
        0x20_0000,
    )
}

/// The immediate of `raw` in the format its opcode uses: S for stores, B for
/// branches, U for `lui`/`auipc`, J for `jal`, I for everything else.
pub open spec fn immediate_spec(raw: u32) -> int {
    let op = opcode_of(raw);
    if op == opcode::STORE {
        imm_s_spec(raw)
    } else if op == opcode::BRANCH {
        imm_b_spec(raw)
    } else if op == opcode::LUI || op == opcode::AUIPC {
        imm_u_spec(raw)
    } else if op == opcode::JAL {
        imm_j_spec(raw)
    } else {
        imm_i_spec(raw)
    }
}

/// The decoding of the instruction word `raw` fetched at `pc`.
pub open spec fn decode_spec(pc: u32, raw: u32) -> Decoded {
    Decoded {
        pc,
        raw,
        opcode: opcode_of(raw),
        rd: rd_of(raw),
        rs1: rs1_of(raw),
        rs2: rs2_of(raw),
        funct3: funct3_of(raw),
        funct7: funct7_of(raw),
        imm: immediate_spec(raw) as i32,
    }
}

/// Every decoded field fits its width: registers are `x0`–`x31`, and the
/// immediates span the documented ranges (branches ±4 KiB and `jal` ±1 MiB,
/// both in multiples of two; `lui`/`auipc` immediates are multiples of
/// 4096).
pub proof fn lemma_decoded_ranges(raw: u32)
    ensures
        opcode_of(raw) < 0x80,
        rd_of(raw) < 32,
        rs1_of(raw) < 32,
        rs2_of(raw) < 32,
        funct3_of(raw) < 8,
        funct7_of(raw) < 0x80,
        -0x800 <= imm_i_spec(raw) < 0x800,
        -0x800 <= imm_s_spec(raw) < 0x800,
        -0x1000 <= imm_b_spec(raw) < 0x1000,
        imm_b_spec(raw) % 2 == 0,
        -0x10_0000 <= imm_j_spec(raw) < 0x10_0000,
        imm_j_spec(raw) % 2 == 0,
        -0x8000_0000 <= imm_u_spec(raw) < 0x8000_0000,
        imm_u_spec(raw) % 0x1000 == 0,
{
    assert(raw / 0x8000_0000 <= 1);
    assert((raw / 0x1000) * 0x1000 <= raw);
}

/// The B-type word with immediate `imm` (bits 12..1; bit 0 is dropped) and
/// the given fields, laid out as the ISA manual draws it:
/// `imm[12] imm[10:5] rs2 rs1 funct3 imm[4:1] imm[11] opcode`.
pub open spec fn encode_b(imm: i32, rs2: u32, rs1: u32, f3: u32, op: u32) -> u32 {
    let u = imm as u32;
    (((u >> 12) & 1) << 31) | (((u >> 5) & 0x3f) << 25) | (rs2 << 20) | (rs1 << 15) | (f3 << 12) | (((
    u >> 1) & 0xf) << 8) | (((u >> 11) & 1) << 7) | op
}

/// Decoding inverts the B-type layout: every even immediate in
/// `[-4096, 4096)` and every choice of fields comes back as encoded.
pub proof fn lemma_decode_b_type(imm: i32, rs2: u32, rs1: u32, f3: u32, op: u32)
    requires
        -0x1000 <= imm < 0x1000,
        imm % 2 == 0,
        rs2 < 32,
        rs1 < 32,
        f3 < 8,
        op < 0x80,
    ensures
        ({
            let raw = encode_b(imm, rs2, rs1, f3, op);
            &&& opcode_of(raw) == op
            &&& rs1_of(raw) == rs1
            &&& rs2_of(raw) == rs2
            &&& funct3_of(raw) == f3
            &&& imm_b_spec(raw) == imm as int
        }),
{
    let raw = encode_b(imm, rs2, rs1, f3, op);
    let u = imm as u32;
    assert(raw % 0x80 == op && (raw / 0x8000) % 0x20 == rs1 && (raw / 0x10_0000) % 0x20 == rs2 && (
    raw / 0x1000) % 0x8 == f3) by (bit_vector)
        requires
            raw == (((u >> 12) & 1) << 31) | (((u >> 5) & 0x3f) << 25) | (rs2 << 20) | (rs1 << 15)
                | (f3 << 12) | (((u >> 1) & 0xf) << 8) | (((u >> 11) & 1) << 7) | op,
            rs2 < 32,
            rs1 < 32,
            f3 < 8,
            op < 0x80,
    ;
    assert((raw / 0x8000_0000) * 0x1000 + ((raw / 0x80) % 2) * 0x800 + ((raw / 0x200_0000) % 0x40)
        * 0x20 + ((raw / 0x100) % 0x10) * 2 == (u & 0x1ffe)) by (bit_vector)
        requires
            raw == (((u >> 12) & 1) << 31) | (((u >> 5) & 0x3f) << 25) | (rs2 << 20) | (rs1 << 15)
                | (f3 << 12) | (((u >> 1) & 0xf) << 8) | (((u >> 11) & 1) << 7) | op,
            rs2 < 32,
            rs1 < 32,
            f3 < 8,
            op < 0x80,
    ;
    assert((u & 0x1ffe) == (if imm >= 0i32 {
        imm as u32
    } else {
        (imm + 0x2000i32) as u32
    })) by (bit_vector)
        requires
            u == imm as u32,
            -0x1000i32 <= imm < 0x1000i32,
            imm % 2 == 0,
    ;
}

/// The R-type word with the given fields:
/// `funct7 rs2 rs1 funct3 rd opcode`.
pub open spec fn encode_r(f7: u32, rs2: u32, rs1: u32, f3: u32, rd: u32, op: u32) -> u32 {
    (f7 << 25) | (rs2 << 20) | (rs1 << 15) | (f3 << 12) | (rd << 7) | op
}

/// Decoding inverts the R-type layout for every choice of fields.
pub proof fn lemma_decode_r_type(f7: u32, rs2: u32, rs1: u32, f3: u32, rd: u32, op: u32)
    requires
        f7 < 0x80,
        rs2 < 32,
        rs1 < 32,
        f3 < 8,
        rd < 32,
        op < 0x80,
    ensures
        ({
            let raw = encode_r(f7, rs2, rs1, f3, rd, op);
            &&& opcode_of(raw) == op
            &&& rd_of(raw) == rd
            &&& rs1_of(raw) == rs1
            &&& rs2_of(raw) == rs2
            &&& funct3_of(raw) == f3
            &&& funct7_of(raw) == f7
        }),
{
    let raw = encode_r(f7, rs2, rs1, f3, rd, op);
    assert(raw % 0x80 == op && (raw / 0x80) % 0x20 == rd && (raw / 0x8000) % 0x20 == rs1 && (raw
        / 0x10_0000) % 0x20 == rs2 && (raw / 0x1000) % 0x8 == f3 && raw / 0x200_0000 == f7)
        by (bit_vector)
        requires
            raw == (f7 << 25) | (rs2 << 20) | (rs1 << 15) | (f3 << 12) | (rd << 7) | op,
            f7 < 0x80,
            rs2 < 32,
            rs1 < 32,
            f3 < 8,
            rd < 32,
            op < 0x80,
    ;
}

/// The I-type word with immediate `imm` (12 bits) and the given fields:
/// `imm[11:0] rs1 funct3 rd opcode`.
pub open spec fn encode_i(imm: i32, rs1: u32, f3: u32, rd: u32, op: u32) -> u32 {
    (((imm as u32) & 0xfff) << 20) | (rs1 << 15) | (f3 << 12) | (rd << 7) | op
}

/// Decoding inverts the I-type layout for every immediate in
/// `[-2048, 2048)` and every choice of fields.
pub proof fn lemma_decode_i_type(imm: i32, rs1: u32, f3: u32, rd: u32, op: u32)
    requires
        -0x800 <= imm < 0x800,
        rs1 < 32,
        f3 < 8,
        rd < 32,
        op < 0x80,
    ensures
        ({
            let raw = encode_i(imm, rs1, f3, rd, op);
            &&& opcode_of(raw) == op
            &&& rd_of(raw) == rd
            &&& rs1_of(raw) == rs1
            &&& funct3_of(raw) == f3
            &&& imm_i_spec(raw) == imm as int
        }),
{
    let raw = encode_i(imm, rs1, f3, rd, op);
    let u = imm as u32;
    assert(raw % 0x80 == op && (raw / 0x80) % 0x20 == rd && (raw / 0x8000) % 0x20 == rs1 && (raw
        / 0x1000) % 0x8 == f3 && raw / 0x10_0000 == u & 0xfff) by (bit_vector)
        requires
            raw == ((u & 0xfff) << 20) | (rs1 << 15) | (f3 << 12) | (rd << 7) | op,
            rs1 < 32,
            f3 < 8,
            rd < 32,
            op < 0x80,
    ;
    assert((u & 0xfff) == (if imm >= 0i32 {
        imm as u32
    } else {
        (imm + 0x1000i32) as u32
    })) by (bit_vector)
        requires
            u == imm as u32,
            -0x800i32 <= imm < 0x800i32,
    ;
}

/// The S-type word with immediate `imm` (12 bits) and the given fields:
/// `imm[11:5] rs2 rs1 funct3 imm[4:0] opcode`.
pub open spec fn encode_s(imm: i32, rs2: u32, rs1: u32, f3: u32, op: u32) -> u32 {
    let u = imm as u32;
    (((u >> 5) & 0x7f) << 25) | (rs2 << 20) | (rs1 << 15) | (f3 << 12) | ((u & 0x1f) << 7) | op
}

/// Decoding inverts the S-type layout for every immediate in
/// `[-2048, 2048)` and every choice of fields.
pub proof fn lemma_decode_s_type(imm: i32, rs2: u32, rs1: u32, f3: u32, op: u32)
    requires
        -0x800 <= imm < 0x800,
        rs2 < 32,
        rs1 < 32,
        f3 < 8,
        op < 0x80,
    ensures
        ({
            let raw = encode_s(imm, rs2, rs1, f3, op);
            &&& opcode_of(raw) == op
            &&& rs1_of(raw) == rs1
            &&& rs2_of(raw) == rs2
            &&& funct3_of(raw) == f3
            &&& imm_s_spec(raw) == imm as int
        }),
{
    let raw = encode_s(imm, rs2, rs1, f3, op);
    let u = imm as u32;
    assert(raw % 0x80 == op && (raw / 0x8000) % 0x20 == rs1 && (raw / 0x10_0000) % 0x20 == rs2 && (
    raw / 0x1000) % 0x8 == f3 && (raw / 0x200_0000) * 0x20 + (raw / 0x80) % 0x20 == u & 0xfff)
        by (bit_vector)
        requires
            raw == (((u >> 5) & 0x7f) << 25) | (rs2 << 20) | (rs1 << 15) | (f3 << 12) | ((u & 0x1f)
                << 7) | op,
            rs2 < 32,
            rs1 < 32,
            f3 < 8,
            op < 0x80,
    ;
    assert((u & 0xfff) == (if imm >= 0i32 {
        imm as u32
    } else {
        (imm + 0x1000i32) as u32
    })) by (bit_vector)
        requires
            u == imm as u32,
            -0x800i32 <= imm < 0x800i32,
    ;
}

/// The U-type word whose upper twenty bits are `upper`: `upper rd opcode`.
pub open spec fn encode_u(upper: u32, rd: u32, op: u32) -> u32 {
    (upper << 12) | (rd << 7) | op
}

/// Decoding inverts the U-type layout: the immediate is `upper * 4096` read
/// as a signed 32-bit number.
pub proof fn lemma_decode_u_type(upper: u32, rd: u32, op: u32)
    requires
        upper < 0x10_0000,
        rd < 32,
        op < 0x80,
    ensures
        ({
            let raw = encode_u(upper, rd, op);
            &&& opcode_of(raw) == op
            &&& rd_of(raw) == rd
            &&& imm_u_spec(raw) == crate::word::signed((upper * 0x1000) as u32)
        }),
{
    let raw = encode_u(upper, rd, op);
    assert(raw % 0x80 == op && (raw / 0x80) % 0x20 == rd && (raw / 0x1000) * 0x1000 == upper
        * 0x1000) by (bit_vector)
        requires
            raw == (upper << 12) | (rd << 7) | op,
            upper < 0x10_0000,
            rd < 32,
            op < 0x80,
    ;
}

/// The J-type word with immediate `imm` (bits 20..1; bit 0 is dropped) and
/// the given fields: `imm[20] imm[10:1] imm[11] imm[19:12] rd opcode`.
pub open spec fn encode_j(imm: i32, rd: u32, op: u32) -> u32 {
    let u = imm as u32;
    (((u >> 20) & 1) << 31) | (((u >> 1) & 0x3ff) << 21) | (((u >> 11) & 1) << 20) | (((u >> 12)
        & 0xff) << 12) | (rd << 7) | op
}

/// Decoding inverts the J-type layout: every even immediate in
/// `[-2^20, 2^20)` and every choice of fields comes back as encoded.
pub proof fn lemma_decode_j_type(imm: i32, rd: u32, op: u32)
    requires
        -0x10_0000 <= imm < 0x10_0000,
        imm % 2 == 0,
        rd < 32,
        op < 0x80,
    ensures
        ({
            let raw = encode_j(imm, rd, op);
            &&& opcode_of(raw) == op
            &&& rd_of(raw) == rd
            &&& imm_j_spec(raw) == imm as int
        }),
{
    let raw = encode_j(imm, rd, op);
    let u = imm as u32;
    assert(raw % 0x80 == op && (raw / 0x80) % 0x20 == rd && (raw / 0x8000_0000) * 0x10_0000 + ((raw
        / 0x1000) % 0x100) * 0x1000 + ((raw / 0x10_0000) % 2) * 0x800 + ((raw / 0x20_0000) % 0x400)
        * 2 == (u & 0x1f_fffe)) by (bit_vector)
        requires
            raw == (((u >> 20) & 1) << 31) | (((u >> 1) & 0x3ff) << 21) | (((u >> 11) & 1) << 20)
                | (((u >> 12) & 0xff) << 12) | (rd << 7) | op,
            rd < 32,
            op < 0x80,
    ;
    assert((u & 0x1f_fffe) == (if imm >= 0i32 {
        imm as u32
    } else {
        (imm + 0x20_0000i32) as u32
    })) by (bit_vector)
        requires
            u == imm as u32,
            -0x10_0000i32 <= imm < 0x10_0000i32,
            imm % 2 == 0,
    ;
}

/// `decode` takes each instruction's immediate in its own format: stores
/// (S), branches (B), `jal` (J), `lui`/`auipc` (U), and loads, `OP-IMM`,
/// `jalr` (I) all give back the immediate they were encoded with.
pub proof fn lemma_decode_uses_the_opcode_format(
    pc: u32,
    imm: i32,
    upper: u32,
    rs2: u32,
    rs1: u32,
    f3: u32,
    rd: u32,
)
    requires
        rs2 < 32,
        rs1 < 32,
        f3 < 8,
        rd < 32,
        upper < 0x10_0000,
    ensures
        -0x800 <= imm < 0x800 ==> decode_spec(pc, encode_s(imm, rs2, rs1, f3, opcode::STORE)).imm
            == imm,
        -0x800 <= imm < 0x800 ==> decode_spec(pc, encode_i(imm, rs1, f3, rd, opcode::LOAD)).imm
            == imm,
        -0x800 <= imm < 0x800 ==> decode_spec(pc, encode_i(imm, rs1, f3, rd, opcode::OP_IMM)).imm
            == imm,
        -0x800 <= imm < 0x800 ==> decode_spec(pc, encode_i(imm, rs1, f3, rd, opcode::JALR)).imm
            == imm,
        (-0x1000 <= imm < 0x1000 && imm % 2 == 0) ==> decode_spec(
            pc,
            encode_b(imm, rs2, rs1, f3, opcode::BRANCH),
        ).imm == imm,
        (-0x10_0000 <= imm < 0x10_0000 && imm % 2 == 0) ==> decode_spec(
            pc,
            encode_j(imm, rd, opcode::JAL),
        ).imm == imm,
        decode_spec(pc, encode_u(upper, rd, opcode::LUI)).imm as int == crate::word::signed(
            (upper * 0x1000) as u32,
        ),
        decode_spec(pc, encode_u(upper, rd, opcode::AUIPC)).imm as int == crate::word::signed(
            (upper * 0x1000) as u32,
        ),
{
    if -0x800 <= imm < 0x800 {
        lemma_decode_s_type(imm, rs2, rs1, f3, opcode::STORE);
        lemma_decode_i_type(imm, rs1, f3, rd, opcode::LOAD);
        lemma_decode_i_type(imm, rs1, f3, rd, opcode::OP_IMM);
        lemma_decode_i_type(imm, rs1, f3, rd, opcode::JALR);
    }
    if -0x1000 <= imm < 0x1000 && imm % 2 == 0 {
        lemma_decode_b_type(imm, rs2, rs1, f3, opcode::BRANCH);
    }
    if -0x10_0000 <= imm < 0x10_0000 && imm % 2 == 0 {
        lemma_decode_j_type(imm, rd, opcode::JAL);
    }
    lemma_decode_u_type(upper, rd, opcode::LUI);
    lemma_decode_u_type(upper, rd, opcode::AUIPC);
    lemma_decoded_ranges(encode_u(upper, rd, opcode::LUI));
    lemma_decoded_ranges(encode_u(upper, rd, opcode::AUIPC));
}

/// A decoded 32-bit instruction.
#[derive(Debug, Clone, Copy)]
pub struct Decoded {
    pub pc: u32,
    pub raw: u32,
    pub opcode: u32,
    pub rd: u32,
    pub rs1: u32,
    pub rs2: u32,
    pub funct3: u32,
    pub funct7: u32,
    /// Sign-extended immediate, decoded per the instruction's format.
    pub imm: i32,
}

/// Sign-extend the low `bits` bits of `val` to 32 bits.
fn sign_extend(val: u32, bits: u32) -> (r: i32)
    requires
        bits == 12 || bits == 13 || bits == 21,
        val < pow2(bits as nat),
    ensures
        r as int == sext(val as int, pow2(bits as nat) as int),
{
    proof {
        lemma2_to64();
    }
    let shift = 32 - bits;
    let r = ((val << shift) as i32) >> shift;
    if bits == 12 {
        assert(((val << shift) as i32) >> shift == (if val < 0x800 {
            val as i32
        } else {
            ((val as i32) - 0x1000i32) as i32
        })) by (bit_vector)
            requires
                shift == 20,
                val < 0x1000,
        ;
    } else if bits == 13 {
        assert(((val << shift) as i32) >> shift == (if val < 0x1000 {
            val as i32
        } else {
            ((val as i32) - 0x2000i32) as i32
        })) by (bit_vector)
            requires
                shift == 19,
                val < 0x2000,
        ;
    } else {
        assert(((val << shift) as i32) >> shift == (if val < 0x10_0000 {
            val as i32
        } else {
            ((val as i32) - 0x20_0000i32) as i32
        })) by (bit_vector)
            requires
                shift == 11,
                val < 0x20_0000,
        ;
    }
    r
}

/// I-type immediate (`inst[31:20]`, signed 12-bit).
fn imm_i(inst: u32) -> (r: i32)
    ensures
        r as int == imm_i_spec(inst),
{
    proof {
        lemma2_to64();
    }
    assert(inst >> 20 == inst / 0x10_0000) by (bit_vector);
    sign_extend(inst >> 20, 12)
}

/// S-type immediate (`inst[31:25:11:7]`, signed 12-bit).
fn imm_s(inst: u32) -> (r: i32)
    ensures
        r as int == imm_s_spec(inst),
{
    proof {
        lemma2_to64();
    }
    assert(((inst >> 25) << 5) | ((inst >> 7) & 0x1f) == (inst / 0x200_0000) * 0x20 + (inst / 0x80)
        % 0x20) by (bit_vector);
    sign_extend(((inst >> 25) << 5) | ((inst >> 7) & 0x1f), 12)
}

/// B-type immediate (`inst[31:7:30:25:11:8]`, signed 13-bit).
fn imm_b(inst: u32) -> (r: i32)
    ensures
        r as int == imm_b_spec(inst),
{
    proof {
        lemma2_to64();
    }
    let imm = ((inst >> 31) << 12) | (((inst >> 7) & 0x1) << 11) | (((inst >> 25) & 0x3f) << 5) | (((
    inst >> 8) & 0xf) << 1);
    assert(imm == (inst / 0x8000_0000) * 0x1000 + ((inst / 0x80) % 2) * 0x800 + ((inst / 0x200_0000)
        % 0x40) * 0x20 + ((inst / 0x100) % 0x10) * 2) by (bit_vector)
        requires
            imm == ((inst >> 31) << 12) | (((inst >> 7) & 0x1) << 11) | (((inst >> 25) & 0x3f) << 5)
                | (((inst >> 8) & 0xf) << 1),
    ;
    sign_extend(imm, 13)
}

/// U-type immediate (`inst[31:12]`, left-justified into the high half-word).
fn imm_u(inst: u32) -> (r: i32)
    ensures
        r as int == imm_u_spec(inst),
{
    proof {
        lemma_as_i32(inst & 0xFFFF_F000);
    }
    assert(inst & 0xFFFF_F000 == (inst / 0x1000) * 0x1000) by (bit_vector);
    (inst & 0xFFFF_F000) as i32
}

/// J-type immediate (`inst[31:19:20:12]`, signed 21-bit).
fn imm_j(inst: u32) -> (r: i32)
    ensures
        r as int == imm_j_spec(inst),
{
    proof {
        lemma2_to64();
    }
    let imm = ((inst >> 31) << 20) | (((inst >> 12) & 0xff) << 12) | (((inst >> 20) & 0x1) << 11) | (((
    inst >> 21) & 0x3ff) << 1);
    assert(imm == (inst / 0x8000_0000) * 0x10_0000 + ((inst / 0x1000) % 0x100) * 0x1000 + ((inst
        / 0x10_0000) % 2) * 0x800 + ((inst / 0x20_0000) % 0x400) * 2) by (bit_vector)
        requires
            imm == ((inst >> 31) << 20) | (((inst >> 12) & 0xff) << 12) | (((inst >> 20) & 0x1)
                << 11) | (((inst >> 21) & 0x3ff) << 1),
    ;
    sign_extend(imm, 21)
}

/// Select the correct immediate decoder for a given opcode.
fn immediate(inst: u32) -> (r: i32)
    ensures
        r as int == immediate_spec(inst),
{
    let op = inst & 0x7f;
    assert(inst & 0x7f == inst % 0x80) by (bit_vector);
    if op == opcode::STORE {
        imm_s(inst)
    } else if op == opcode::BRANCH {
        imm_b(inst)
    } else if op == opcode::LUI || op == opcode::AUIPC {
        imm_u(inst)
    } else if op == opcode::JAL {
        imm_j(inst)
    } else {
        // LOAD, OP_IMM, JALR, SYSTEM (ecall/ebreak/CSR) use the I format.
        imm_i(inst)
    }
}

/// Decode a 32-bit little-endian instruction word.
pub fn decode(pc: u32, raw: u32) -> (d: Decoded)
    ensures
        d == decode_spec(pc, raw),
{
    assert(raw & 0x7f == raw % 0x80) by (bit_vector);
    assert((raw >> 7) & 0x1f == (raw / 0x80) % 0x20) by (bit_vector);
    assert((raw >> 12) & 0x7 == (raw / 0x1000) % 0x8) by (bit_vector);
    assert((raw >> 15) & 0x1f == (raw / 0x8000) % 0x20) by (bit_vector);
    assert((raw >> 20) & 0x1f == (raw / 0x10_0000) % 0x20) by (bit_vector);
    assert((raw >> 25) & 0x7f == raw / 0x200_0000) by (bit_vector);
    Decoded {
        pc,
        raw,
        opcode: raw & 0x7f,
        rd: (raw >> 7) & 0x1f,
        funct3: (raw >> 12) & 0x7,
        rs1: (raw >> 15) & 0x1f,
        rs2: (raw >> 20) & 0x1f,
        funct7: (raw >> 25) & 0x7f,
        imm: immediate(raw),
    }
}

} // verus!
