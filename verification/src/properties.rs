//! What each instruction does, stated from the registers, memory and CSRs
//! it reads to the ones it writes, for every input. These hold of
//! `execute_spec`, the function `Cpu::execute` computes and `Cpu::step`
//! applies to each fetched word.

use vstd::prelude::*;
use vstd::arithmetic::power2::pow2;
use crate::alu::{muldiv_spec, lemma_shifts_scale, lemma_signed_quotient_remainder};
use crate::arch::{ArchState, execute_spec, fields_fit, wf, is_counter_csr};
use crate::cpu::{StepOutcome, Trap};
use crate::csr::csr_value;
use crate::isa::{opcode, funct3, Decoded};
use crate::mem::{byte_at, load_le, store_le};
use crate::word::{abs, signed, wrap32, lemma_wrap_near};

verus! {

/// The value register `rd` holds after executing `d` in `s`.
pub open spec fn rd_after(s: ArchState, m: Map<u32, u8>, d: Decoded) -> u32 {
    execute_spec(s, m, d).state.regs[d.rd as int]
}

/// The instruction completed.
pub open spec fn completes(s: ArchState, m: Map<u32, u8>, d: Decoded) -> bool {
    execute_spec(s, m, d).result == Ok::<StepOutcome, Trap>(StepOutcome::Continue)
}

/// `div` and `rem` with the same source registers give the quotient rounded
/// toward zero and its remainder: `rs1 == rs2 * q + r` as signed numbers,
/// `|r| < |rs2|`, `r` zero or of the sign of `rs1`; the quotient is negative
/// exactly when the operands' signs differ and `|rs1| >= |rs2|`.
pub proof fn law_signed_division(s: ArchState, m: Map<u32, u8>, dv: Decoded, rm: Decoded)
    requires
        wf(s),
        fields_fit(dv),
        fields_fit(rm),
        dv.opcode == opcode::OP,
        rm.opcode == opcode::OP,
        dv.funct7 == 1,
        rm.funct7 == 1,
        dv.funct3 == 4,
        rm.funct3 == 6,
        dv.rs1 == rm.rs1,
        dv.rs2 == rm.rs2,
        dv.rd != 0,
        rm.rd != 0,
        s.regs[dv.rs2 as int] != 0,
        !(s.regs[dv.rs1 as int] == 0x8000_0000 && s.regs[dv.rs2 as int] == 0xFFFF_FFFF),
    ensures
        ({
            let a = signed(s.regs[dv.rs1 as int]);
            let b = signed(s.regs[dv.rs2 as int]);
            let q = signed(rd_after(s, m, dv));
            let r = signed(rd_after(s, m, rm));
            &&& completes(s, m, dv)
            &&& completes(s, m, rm)
            &&& a == b * q + r
            &&& abs(r) < abs(b)
            &&& r == 0 || (r < 0) == (a < 0)
            &&& (q < 0) == ((a < 0) != (b < 0) && abs(a) >= abs(b))
        }),
{
    lemma_signed_quotient_remainder(s.regs[dv.rs1 as int], s.regs[dv.rs2 as int]);
    assert(rd_after(s, m, dv) == muldiv_spec(s.regs[dv.rs1 as int], s.regs[dv.rs2 as int], 4));
    assert(rd_after(s, m, rm) == muldiv_spec(s.regs[dv.rs1 as int], s.regs[dv.rs2 as int], 6));
}

/// The Zicsr instructions on a writable, non-counter CSR: `rd` receives the
/// old value; `csrrw(i)` stores the source, `csrrs(i)` sets the source's
/// bits (every bit set before stays set), `csrrc(i)` clears them (every bit
/// clear before stays clear); with a zero `rs1` field `csrrs(i)`/`csrrc(i)`
/// store nothing. The source is `rs1`'s value, or the `rs1` field itself in
/// the immediate forms.
pub proof fn law_csr_instructions(s: ArchState, m: Map<u32, u8>, d: Decoded)
    requires
        wf(s),
        fields_fit(d),
        d.opcode == opcode::SYSTEM,
        d.funct3 != 0,
        d.funct3 != 4,
        (d.raw / 0x10_0000) / 0x400 != 3,
        !is_counter_csr(d.raw / 0x10_0000),
    ensures
        ({
            let o = execute_spec(s, m, d);
            let address = d.raw / 0x10_0000;
            let old = csr_value(s.csrs, address);
            let src = if d.funct3 < 4 {
                s.regs[d.rs1 as int]
            } else {
                d.rs1
            };
            let now = csr_value(o.state.csrs, address);
            &&& completes(s, m, d)
            &&& o.mem == m
            &&& d.rd != 0 ==> rd_after(s, m, d) == old
            &&& (d.funct3 == 1 || d.funct3 == 5) ==> now == src
            &&& (d.funct3 == 2 || d.funct3 == 6) ==> now == old | src && now & old == old && now
                & src == src
            &&& (d.funct3 == 3 || d.funct3 == 7) ==> now == old & !src && now & src == 0 && now
                | old == old
            &&& (d.funct3 != 1 && d.funct3 != 5 && d.rs1 == 0) ==> o.state.csrs == s.csrs
            &&& forall|a: u32| a != address ==> #[trigger] csr_value(o.state.csrs, a) == csr_value(s.csrs, a)
        }),
{
    let address = d.raw / 0x10_0000;
    let old = csr_value(s.csrs, address);
    let src = if d.funct3 < 4 {
        s.regs[d.rs1 as int]
    } else {
        d.rs1
    };
    assert((old | src) & old == old && (old | src) & src == src) by (bit_vector);
    assert((old & !src) & src == 0 && (old & !src) | old == old) by (bit_vector);
    assert(old | 0u32 == old && old & !0u32 == old) by (bit_vector);
    if d.rs1 == 0 {
        assert(src == 0);
    }
}

/// A load or store accesses `rs1 + imm` (modulo 2^32), with `imm` the
/// signed immediate: `lw`/`lhu`/`lbu` load the word, half-word or byte
/// there, `lh`/`lb` sign-extend it; `sw`/`sh`/`sb` write the low bytes of
/// `rs2` there little-endian. Half-word and word accesses at an address that
/// is not naturally aligned trap with that address, and a trapping store
/// writes nothing.
pub proof fn law_loads_and_stores(s: ArchState, m: Map<u32, u8>, d: Decoded)
    requires
        wf(s),
        fields_fit(d),
        d.rd != 0,
        d.opcode == opcode::LOAD || d.opcode == opcode::STORE,
    ensures
        ({
            let at = wrap32(s.regs[d.rs1 as int] + d.imm);
            let v = s.regs[d.rs2 as int];
            let o = execute_spec(s, m, d);
            let byte = byte_at(m, at);
            let half = load_le(m, at, 2);
            &&& (d.opcode == opcode::LOAD && d.funct3 == funct3::LW) ==> if at % 4 == 0 {
                completes(s, m, d) && rd_after(s, m, d) == load_le(m, at, 4)
            } else {
                o.result == Err::<StepOutcome, Trap>(Trap::LoadAddressMisaligned(at))
            }
            &&& (d.opcode == opcode::LOAD && d.funct3 == funct3::LBU) ==> completes(s, m, d)
                && rd_after(s, m, d) == byte
            &&& (d.opcode == opcode::LOAD && d.funct3 == funct3::LB) ==> completes(s, m, d)
                && rd_after(s, m, d) == (if byte < 0x80 {
                byte as u32
            } else {
                (byte + 0xFFFF_FF00) as u32
            })
            &&& (d.opcode == opcode::LOAD && d.funct3 == funct3::LHU) ==> if at % 2 == 0 {
                completes(s, m, d) && rd_after(s, m, d) == half
            } else {
                o.result == Err::<StepOutcome, Trap>(Trap::LoadAddressMisaligned(at))
            }
            &&& (d.opcode == opcode::LOAD && d.funct3 == funct3::LH) ==> if at % 2 == 0 {
                completes(s, m, d) && rd_after(s, m, d) == (if half < 0x8000 {
                    half as u32
                } else {
                    (half + 0xFFFF_0000) as u32
                })
            } else {
                o.result == Err::<StepOutcome, Trap>(Trap::LoadAddressMisaligned(at))
            }
            &&& d.opcode == opcode::LOAD ==> o.mem == m
            &&& (d.opcode == opcode::STORE && d.funct3 == funct3::SB) ==> completes(s, m, d)
                && o.mem == m.insert(at, (v % 256) as u8)
            &&& (d.opcode == opcode::STORE && d.funct3 == funct3::SH) ==> if at % 2 == 0 {
                completes(s, m, d) && o.mem == store_le(m, at, 2, v as nat)
            } else {
                o.result == Err::<StepOutcome, Trap>(Trap::StoreAddressMisaligned(at)) && o.mem == m
            }
            &&& (d.opcode == opcode::STORE && d.funct3 == funct3::SW) ==> if at % 4 == 0 {
                completes(s, m, d) && o.mem == store_le(m, at, 4, v as nat)
            } else {
                o.result == Err::<StepOutcome, Trap>(Trap::StoreAddressMisaligned(at)) && o.mem == m
            }
        }),
{
    let at = wrap32(s.regs[d.rs1 as int] + d.imm);
    reveal_with_fuel(load_le, 2);
    reveal_with_fuel(store_le, 2);
    crate::mem::lemma_load_le_bound(m, at, 1);
    crate::mem::lemma_load_le_bound(m, at, 2);
    crate::mem::lemma_load_le_bound(m, at, 4);
    reveal_with_fuel(crate::mem::pow256, 5);
    lemma_wrap_near(crate::word::sext(load_le(m, at, 1) as int, 0x100));
    lemma_wrap_near(crate::word::sext(load_le(m, at, 2) as int, 0x1_0000));
}

/// A conditional branch whose target `pc + imm` is aligned goes there
/// exactly when its condition holds and to `pc + 4` otherwise: `beq` on
/// equal operands, `bne` on different ones, `blt`/`bge` when `rs1` is
/// less / not less than `rs2` as signed numbers, `bltu`/`bgeu` likewise as
/// unsigned numbers. So `bge` is taken on equal operands, and each of
/// `bne`, `bge`, `bgeu` is taken exactly when `beq`, `blt`, `bltu` is not.
/// Registers and memory are left alone.
pub proof fn law_branches(s: ArchState, m: Map<u32, u8>, d: Decoded)
    requires
        wf(s),
        fields_fit(d),
        d.opcode == opcode::BRANCH,
        wrap32(s.pc + d.imm) % 4 == 0,
    ensures
        ({
            let a = s.regs[d.rs1 as int];
            let b = s.regs[d.rs2 as int];
            let o = execute_spec(s, m, d);
            let target = wrap32(s.pc + d.imm);
            let next = wrap32(s.pc + 4);
            let f3 = d.funct3;
            &&& (f3 == 2 || f3 == 3) ==> o.result == Err::<StepOutcome, Trap>(
                Trap::IllegalInstruction(s.pc),
            )
            &&& (f3 != 2 && f3 != 3) ==> completes(s, m, d) && o.state.regs == s.regs && o.mem == m
            &&& f3 == funct3::BEQ ==> o.state.pc == (if a == b {
                target
            } else {
                next
            })
            &&& f3 == funct3::BNE ==> o.state.pc == (if a != b {
                target
            } else {
                next
            })
            &&& f3 == funct3::BLT ==> o.state.pc == (if signed(a) < signed(b) {
                target
            } else {
                next
            })
            &&& f3 == funct3::BGE ==> o.state.pc == (if signed(a) >= signed(b) {
                target
            } else {
                next
            })
            &&& f3 == funct3::BLTU ==> o.state.pc == (if a < b {
                target
            } else {
                next
            })
            &&& f3 == funct3::BGEU ==> o.state.pc == (if a >= b {
                target
            } else {
                next
            })
        }),
{
}

/// `jal` goes to `pc + imm` and `jalr` to `rs1 + imm` with the lowest bit
/// cleared; both link `pc + 4` into `rd`, `jalr` reading `rs1` before the
/// link is written.
pub proof fn law_jumps(s: ArchState, m: Map<u32, u8>, d: Decoded)
    requires
        wf(s),
        fields_fit(d),
        d.rd != 0,
        d.opcode == opcode::JAL || (d.opcode == opcode::JALR && d.funct3 == 0),
    ensures
        ({
            let o = execute_spec(s, m, d);
            let target = if d.opcode == opcode::JAL {
                wrap32(s.pc + d.imm)
            } else {
                (wrap32(s.regs[d.rs1 as int] + d.imm) / 2 * 2) as u32
            };
            &&& target % 4 == 0 ==> completes(s, m, d) && o.state.pc == target && rd_after(s, m, d)
                == wrap32(s.pc + 4)
            &&& target % 4 != 0 ==> o.result == Err::<StepOutcome, Trap>(
                Trap::InstructionAddressMisaligned(target),
            ) && o.state == s
        }),
{
}

/// Shifts scale by powers of two: `slli`/`sll` multiply `rs1` by 2^k modulo
/// 2^32, `srli`/`srl` divide it rounding down, and `srai`/`sra` divide its
/// signed value rounding toward negative infinity (so on a non-negative
/// `rs1` they agree with the logical shift). `k` is the `shamt` field for
/// the immediate forms and `rs2 mod 32` for the register forms.
pub proof fn law_shifts(s: ArchState, m: Map<u32, u8>, d: Decoded)
    requires
        wf(s),
        fields_fit(d),
        d.rd != 0,
        (d.opcode == opcode::OP_IMM && (d.funct3 == 1 && d.funct7 == 0 || d.funct3 == 5 && (
        d.funct7 == 0 || d.funct7 == 0x20))) || (d.opcode == opcode::OP && (d.funct3 == 1
            && d.funct7 == 0 || d.funct3 == 5 && (d.funct7 == 0 || d.funct7 == 0x20))),
    ensures
        ({
            let a = s.regs[d.rs1 as int];
            let k = if d.opcode == opcode::OP_IMM {
                d.rs2
            } else {
                s.regs[d.rs2 as int] % 32
            };
            let r = rd_after(s, m, d);
            &&& completes(s, m, d)
            &&& d.funct3 == 1 ==> r == wrap32(a * pow2(k as nat))
            &&& (d.funct3 == 5 && d.funct7 == 0) ==> r == (a as nat) / pow2(k as nat)
            &&& (d.funct3 == 5 && d.funct7 == 0x20) ==> signed(r) == signed(a) / (pow2(
                k as nat,
            ) as int)
            &&& (d.funct3 == 5 && d.funct7 == 0x20 && a < 0x8000_0000) ==> r == (a as nat) / pow2(
                k as nat,
            )
        }),
{
    let a = s.regs[d.rs1 as int];
    let k = if d.opcode == opcode::OP_IMM {
        d.rs2
    } else {
        s.regs[d.rs2 as int] % 32
    };
    lemma_shifts_scale(a, k);
}

/// The register-immediate and register-register ALU operations other than
/// shifts: `add(i)` and `sub` add and subtract modulo 2^32 (the immediate is
/// the signed `imm`), `slt(i)`/`sltu`/`sltiu` write 1 exactly when `rs1` is
/// less than the second operand as signed / unsigned numbers and 0
/// otherwise (`sltiu` compares with the sign-extended immediate read
/// unsigned), and `xor`/`or`/`and` and their immediate forms are bitwise.
pub proof fn law_alu_operations(s: ArchState, m: Map<u32, u8>, d: Decoded)
    requires
        wf(s),
        fields_fit(d),
        d.rd != 0,
        (d.opcode == opcode::OP_IMM && d.funct3 != 1 && d.funct3 != 5) || (d.opcode == opcode::OP
            && d.funct3 != 1 && d.funct3 != 5 && (d.funct7 == 0 || (d.funct7 == 0x20 && d.funct3
            == 0))),
    ensures
        ({
            let a = s.regs[d.rs1 as int];
            let imm_form = d.opcode == opcode::OP_IMM;
            let b = if imm_form {
                wrap32(d.imm as int)
            } else {
                s.regs[d.rs2 as int]
            };
            let sb = if imm_form {
                d.imm as int
            } else {
                signed(s.regs[d.rs2 as int])
            };
            let r = rd_after(s, m, d);
            let sub = !imm_form && d.funct7 == 0x20;
            &&& completes(s, m, d)
            &&& execute_spec(s, m, d).state.pc == wrap32(s.pc + 4)
            &&& (d.funct3 == 0 && !sub) ==> r == wrap32(a + sb) && wrap32(r - sb) == a
            &&& (d.funct3 == 0 && sub) ==> r == wrap32(a - b) && wrap32(r + b) == a
            &&& d.funct3 == 2 ==> r == (if signed(a) < sb {
                1u32
            } else {
                0u32
            })
            &&& d.funct3 == 3 ==> r == (if a < b {
                1u32
            } else {
                0u32
            })
            &&& d.funct3 == 4 ==> r == a ^ b && r ^ b == a
            &&& d.funct3 == 6 ==> r == a | b
            &&& d.funct3 == 7 ==> r == a & b
        }),
{
    let a = s.regs[d.rs1 as int];
    let b = s.regs[d.rs2 as int];
    let r = rd_after(s, m, d);
    lemma_wrap_near(d.imm as int);
    lemma_wrap_near(a + d.imm);
    lemma_wrap_near(a + b);
    lemma_wrap_near(a - b);
    lemma_wrap_near(signed(b));
    lemma_wrap_near(a + signed(b));
    lemma_wrap_near(r - d.imm);
    lemma_wrap_near(r - signed(b));
    lemma_wrap_near(r + b);
    let wb = wrap32(d.imm as int);
    assert((a ^ wb) ^ wb == a && (a ^ b) ^ b == a) by (bit_vector);
}

/// The multiplications: `mul` gives the low word of the product, and the
/// high word that `mulh`, `mulhsu` or `mulhu` gives makes up the full
/// product with it (`rs1` and `rs2` read as signed × signed, signed ×
/// unsigned and unsigned × unsigned).
pub proof fn law_multiplication(s: ArchState, m: Map<u32, u8>, d: Decoded)
    requires
        wf(s),
        fields_fit(d),
        d.rd != 0,
        d.opcode == opcode::OP,
        d.funct7 == 1,
        d.funct3 < 4,
    ensures
        ({
            let a = s.regs[d.rs1 as int];
            let b = s.regs[d.rs2 as int];
            let r = rd_after(s, m, d);
            let w = 0x1_0000_0000int;
            &&& completes(s, m, d)
            &&& d.funct3 == 0 ==> r == wrap32(a * b)
            &&& d.funct3 == 1 ==> signed(a) * signed(b) == signed(r) * w + wrap32(a * b)
            &&& d.funct3 == 2 ==> signed(a) * b == signed(r) * w + wrap32(a * b)
            &&& d.funct3 == 3 ==> a * b == r * w + wrap32(a * b)
        }),
{
    let a = s.regs[d.rs1 as int];
    let b = s.regs[d.rs2 as int];
    crate::alu::lemma_signed_product_halves(a, b);
    crate::alu::lemma_unsigned_product_halves(a, b);
    assert(rd_after(s, m, d) == muldiv_spec(a, b, d.funct3));
}

/// The divisions never trap: `divu`/`remu` give the quotient (rounded down)
/// and remainder of `rs1` by a nonzero `rs2`; dividing by zero gives all
/// ones for `div`/`divu` and the dividend for `rem`/`remu`; the most
/// negative value divided by -1 gives itself, with remainder 0.
pub proof fn law_division_edges(s: ArchState, m: Map<u32, u8>, d: Decoded)
    requires
        wf(s),
        fields_fit(d),
        d.rd != 0,
        d.opcode == opcode::OP,
        d.funct7 == 1,
        d.funct3 >= 4,
    ensures
        ({
            let a = s.regs[d.rs1 as int];
            let b = s.regs[d.rs2 as int];
            let r = rd_after(s, m, d);
            &&& completes(s, m, d)
            &&& (d.funct3 == 5 && b != 0) ==> r == a / b
            &&& (d.funct3 == 7 && b != 0) ==> r == a % b
            &&& (b == 0 && (d.funct3 == 4 || d.funct3 == 5)) ==> r == 0xFFFF_FFFF
            &&& (b == 0 && (d.funct3 == 6 || d.funct3 == 7)) ==> r == a
            &&& (a == 0x8000_0000 && b == 0xFFFF_FFFF && d.funct3 == 4) ==> r == a
            &&& (a == 0x8000_0000 && b == 0xFFFF_FFFF && d.funct3 == 6) ==> r == 0
        }),
{
    let a = s.regs[d.rs1 as int];
    let b = s.regs[d.rs2 as int];
    crate::alu::lemma_division_by_zero(a);
    crate::alu::lemma_division_overflow();
    assert(rd_after(s, m, d) == muldiv_spec(a, b, d.funct3));
}

/// `lui` writes its immediate and `auipc` the program counter plus its
/// immediate (modulo 2^32); both then move to the next instruction.
pub proof fn law_upper_immediates(s: ArchState, m: Map<u32, u8>, d: Decoded)
    requires
        wf(s),
        fields_fit(d),
        d.rd != 0,
        d.opcode == opcode::LUI || d.opcode == opcode::AUIPC,
    ensures
        completes(s, m, d),
        execute_spec(s, m, d).state.pc == wrap32(s.pc + 4),
        d.opcode == opcode::LUI ==> rd_after(s, m, d) == wrap32(d.imm as int),
        d.opcode == opcode::AUIPC ==> rd_after(s, m, d) == wrap32(s.pc + d.imm),
{
}

/// Reading the counter CSRs (`csrrs rd, csr, x0`) gives the low and high
/// words of the cycle and retired-instruction counts; any write to them
/// traps.
pub proof fn law_counter_csrs(s: ArchState, m: Map<u32, u8>, d: Decoded)
    requires
        wf(s),
        fields_fit(d),
        d.rd != 0,
        d.opcode == opcode::SYSTEM,
        d.funct3 != 0,
        d.funct3 != 4,
        is_counter_csr(d.raw / 0x10_0000),
    ensures
        ({
            let address = d.raw / 0x10_0000;
            let r = rd_after(s, m, d);
            let writes = d.funct3 == 1 || d.funct3 == 5 || d.rs1 != 0;
            &&& writes ==> execute_spec(s, m, d).result == Err::<StepOutcome, Trap>(
                Trap::IllegalInstruction(s.pc),
            )
            &&& !writes ==> completes(s, m, d)
            &&& (!writes && address == crate::csr::addr::CYCLE) ==> r == s.cycle % 0x1_0000_0000
            &&& (!writes && address == crate::csr::addr::CYCLEH) ==> r == s.cycle / 0x1_0000_0000
            &&& (!writes && address == crate::csr::addr::INSTRET) ==> r == s.instret
                % 0x1_0000_0000
            &&& (!writes && address == crate::csr::addr::INSTRETH) ==> r == s.instret
                / 0x1_0000_0000
        }),
{
}

/// A step from a program counter that is not four-byte aligned traps with
/// that address before fetching anything.
pub proof fn law_misaligned_fetch(s: ArchState, m: Map<u32, u8>)
    requires
        s.pc % 4 != 0,
    ensures
        crate::arch::step_spec(s, m).result == Err::<StepOutcome, Trap>(
            Trap::InstructionAddressMisaligned(s.pc),
        ),
        crate::arch::step_spec(s, m).mem == m,
        crate::arch::step_spec(s, m).state.pc == s.pc,
        crate::arch::step_spec(s, m).state.regs == s.regs,
{
}

} // verus!
