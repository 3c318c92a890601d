//! The architectural semantics of one step of the core.
//!
//! `ArchState` is what a program can observe of the core: the program
//! counter, the 32 integer registers, the CSR store and the two 64-bit
//! counters. `step_spec` says what one fetch/decode/execute step does to it
//! and to memory, and what it reports; `run_spec` iterates it under an
//! instruction budget. `Cpu::step` and `Cpu::run` are proved to compute
//! exactly these functions.

use vstd::prelude::*;
use crate::alu::{op_imm_spec, op_spec};
use crate::cpu::{StepOutcome, StopReason, Trap};
use crate::csr::addr;
use crate::csr::csr_value;
use crate::isa::{decode_spec, opcode, opcode_of, rd_of, funct3, Decoded};
use crate::mem::{load_le, store_le};
use crate::word::{wrap32, sext, signed};

verus! {

/// The architectural state of the core.
#[verifier::ext_equal]
pub struct ArchState {
    pub pc: u32,
    /// `x0`–`x31`.
    pub regs: Seq<u32>,
    /// The CSR store (the counter CSRs are not kept here).
    pub csrs: Map<u32, u32>,
    /// Cycles counted so far, one per step.
    pub cycle: u64,
    /// Instructions retired so far.
    pub instret: u64,
}

/// What one step leaves behind: the new state, the new memory and what the
/// step reports.
#[verifier::ext_equal]
pub struct Outcome {
    pub state: ArchState,
    pub mem: Map<u32, u8>,
    pub result: Result<StepOutcome, Trap>,
}

/// What a run leaves behind.
#[verifier::ext_equal]
pub struct RunOutcome {
    pub state: ArchState,
    pub mem: Map<u32, u8>,
    pub result: Result<StopReason, Trap>,
}

/// A well-formed state has 32 registers, and `x0` reads zero.
pub open spec fn wf(s: ArchState) -> bool {
    &&& s.regs.len() == 32
    &&& s.regs[0] == 0
}

/// A 64-bit counter after one more tick; it wraps to zero past its maximum.
pub open spec fn tick(c: u64) -> u64 {
    if c == u64::MAX {
        0
    } else {
        (c + 1) as u64
    }
}

/// The value of register `r`.
pub open spec fn reg_value(s: ArchState, r: u32) -> u32 {
    s.regs[r as int]
}

/// The register file after writing `v` to `rd`; writes to `x0` are
/// discarded.
pub open spec fn write_reg(regs: Seq<u32>, rd: u32, v: u32) -> Seq<u32> {
    if rd == 0 {
        regs
    } else {
        regs.update(rd as int, v)
    }
}

/// `s` with `v` written to `rd` and the program counter moved to `pc`.
pub open spec fn jump_and_write(s: ArchState, rd: u32, v: u32, pc: u32) -> ArchState {
    ArchState { pc, regs: write_reg(s.regs, rd, v), ..s }
}

/// `s` with `v` written to `rd` and the program counter moved to the next
/// instruction.
pub open spec fn write_and_advance(s: ArchState, rd: u32, v: u32) -> ArchState {
    jump_and_write(s, rd, v, wrap32(s.pc + 4))
}

/// `s` moved to the next instruction.
pub open spec fn advance(s: ArchState) -> ArchState {
    ArchState { pc: wrap32(s.pc + 4), ..s }
}

/// The instruction completed: continue with state `s` and memory `m`.
pub open spec fn completed(s: ArchState, m: Map<u32, u8>) -> Outcome {
    Outcome { state: s, mem: m, result: Ok(StepOutcome::Continue) }
}

/// The instruction trapped with `t`; state and memory stay as given.
pub open spec fn trapped(s: ArchState, m: Map<u32, u8>, t: Trap) -> Outcome {
    Outcome { state: s, mem: m, result: Err(t) }
}

/// The instruction at `s.pc` is not a valid instruction.
pub open spec fn illegal(s: ArchState, m: Map<u32, u8>) -> Outcome {
    trapped(s, m, Trap::IllegalInstruction(s.pc))
}

/// `OP-IMM`: register-immediate ALU operations.
pub open spec fn op_imm_step(s: ArchState, m: Map<u32, u8>, d: Decoded) -> Outcome {
    match op_imm_spec(reg_value(s, d.rs1), d) {
        Some(v) => completed(write_and_advance(s, d.rd, v), m),
        None => illegal(s, m),
    }
}

/// `OP`: register-register ALU operations and the M extension.
pub open spec fn op_step(s: ArchState, m: Map<u32, u8>, d: Decoded) -> Outcome {
    match op_spec(reg_value(s, d.rs1), reg_value(s, d.rs2), d) {
        Some(v) => completed(write_and_advance(s, d.rd, v), m),
        None => illegal(s, m),
    }
}

/// The effective address of a load or store: `rs1 + imm`, wrapping.
pub open spec fn effective_address(s: ArchState, d: Decoded) -> u32 {
    wrap32(reg_value(s, d.rs1) + d.imm)
}

/// `LOAD`: `lb`, `lh`, `lw`, `lbu`, `lhu`. Half-word and word loads need a
/// naturally aligned address.
pub open spec fn load_step(s: ArchState, m: Map<u32, u8>, d: Decoded) -> Outcome {
    let addr = effective_address(s, d);
    let f3 = d.funct3;
    if f3 == funct3::LB {
        completed(write_and_advance(s, d.rd, wrap32(sext(load_le(m, addr, 1) as int, 0x100))), m)
    } else if f3 == funct3::LH {
        if addr % 2 != 0 {
            trapped(s, m, Trap::LoadAddressMisaligned(addr))
        } else {
            completed(
                write_and_advance(s, d.rd, wrap32(sext(load_le(m, addr, 2) as int, 0x1_0000))),
                m,
            )
        }
    } else if f3 == funct3::LW {
        if addr % 4 != 0 {
            trapped(s, m, Trap::LoadAddressMisaligned(addr))
        } else {
            completed(write_and_advance(s, d.rd, load_le(m, addr, 4) as u32), m)
        }
    } else if f3 == funct3::LBU {
        completed(write_and_advance(s, d.rd, load_le(m, addr, 1) as u32), m)
    } else if f3 == funct3::LHU {
        if addr % 2 != 0 {
            trapped(s, m, Trap::LoadAddressMisaligned(addr))
        } else {
            completed(write_and_advance(s, d.rd, load_le(m, addr, 2) as u32), m)
        }
    } else {
        illegal(s, m)
    }
}

/// `STORE`: `sb`, `sh`, `sw`. Half-word and word stores need a naturally
/// aligned address; a trapping store writes nothing.
pub open spec fn store_step(s: ArchState, m: Map<u32, u8>, d: Decoded) -> Outcome {
    let addr = effective_address(s, d);
    let v = reg_value(s, d.rs2) as nat;
    let f3 = d.funct3;
    if f3 == funct3::SB {
        completed(advance(s), store_le(m, addr, 1, v))
    } else if f3 == funct3::SH {
        if addr % 2 != 0 {
            trapped(s, m, Trap::StoreAddressMisaligned(addr))
        } else {
            completed(advance(s), store_le(m, addr, 2, v))
        }
    } else if f3 == funct3::SW {
        if addr % 4 != 0 {
            trapped(s, m, Trap::StoreAddressMisaligned(addr))
        } else {
            completed(advance(s), store_le(m, addr, 4, v))
        }
    } else {
        illegal(s, m)
    }
}

/// Whether a branch with condition `f3` is taken on the operands `a` and
/// `b` (for the six defined conditions).
pub open spec fn branch_taken(a: u32, b: u32, f3: u32) -> bool {
    if f3 == funct3::BEQ {
        a == b
    } else if f3 == funct3::BNE {
        a != b
    } else if f3 == funct3::BLT {
        signed(a) < signed(b)
    } else if f3 == funct3::BGE {
        signed(a) >= signed(b)
    } else if f3 == funct3::BLTU {
        a < b
    } else {
        a >= b
    }
}

/// Whether `f3` names one of the six branch conditions.
pub open spec fn is_branch_condition(f3: u32) -> bool {
    f3 == funct3::BEQ || f3 == funct3::BNE || f3 == funct3::BLT || f3 == funct3::BGE || f3
        == funct3::BLTU || f3 == funct3::BGEU
}

/// `BRANCH`: a taken branch needs a four-byte aligned target; an untaken
/// branch does not look at its target.
pub open spec fn branch_step(s: ArchState, m: Map<u32, u8>, d: Decoded) -> Outcome {
    if !is_branch_condition(d.funct3) {
        illegal(s, m)
    } else if branch_taken(reg_value(s, d.rs1), reg_value(s, d.rs2), d.funct3) {
        let target = wrap32(s.pc + d.imm);
        if target % 4 != 0 {
            trapped(s, m, Trap::InstructionAddressMisaligned(target))
        } else {
            completed(ArchState { pc: target, ..s }, m)
        }
    } else {
        completed(advance(s), m)
    }
}

/// `JAL`: link `pc + 4` into `rd` and jump `pc + imm`; a misaligned target
/// traps without linking.
pub open spec fn jal_step(s: ArchState, m: Map<u32, u8>, d: Decoded) -> Outcome {
    let target = wrap32(s.pc + d.imm);
    if target % 4 != 0 {
        trapped(s, m, Trap::InstructionAddressMisaligned(target))
    } else {
        completed(jump_and_write(s, d.rd, wrap32(s.pc + 4), target), m)
    }
}

/// `JALR`: jump to `(rs1 + imm)` with its lowest bit cleared and link
/// `pc + 4` into `rd`; `funct3` must be zero, and a misaligned target traps
/// without linking.
pub open spec fn jalr_step(s: ArchState, m: Map<u32, u8>, d: Decoded) -> Outcome {
    let target = (effective_address(s, d) / 2 * 2) as u32;
    if d.funct3 != 0 {
        illegal(s, m)
    } else if target % 4 != 0 {
        trapped(s, m, Trap::InstructionAddressMisaligned(target))
    } else {
        completed(jump_and_write(s, d.rd, wrap32(s.pc + 4), target), m)
    }
}

/// `MISC-MEM`: `fence` (fence mode `0000`, or `1000` for `fence.tso`) and
/// `fence.i`. They have no effect on a single-hart functional model beyond
/// moving on; other fence modes and `funct3` values are reserved.
pub open spec fn misc_mem_step(s: ArchState, m: Map<u32, u8>, d: Decoded) -> Outcome {
    let fm = d.raw / 0x1000_0000;
    if d.funct3 == 0 {
        if fm == 0 || fm == 8 {
            completed(advance(s), m)
        } else {
            illegal(s, m)
        }
    } else if d.funct3 == 1 {
        completed(advance(s), m)
    } else {
        illegal(s, m)
    }
}

/// The value a CSR instruction reads at `address`: the counters come from
/// the core's 64-bit counters (low and high halves), everything else from
/// the CSR store.
pub open spec fn csr_read_spec(s: ArchState, address: u32) -> u32 {
    if address == addr::CYCLE {
        (s.cycle % 0x1_0000_0000) as u32
    } else if address == addr::CYCLEH {
        (s.cycle / 0x1_0000_0000) as u32
    } else if address == addr::INSTRET {
        (s.instret % 0x1_0000_0000) as u32
    } else if address == addr::INSTRETH {
        (s.instret / 0x1_0000_0000) as u32
    } else {
        csr_value(s.csrs, address)
    }
}

/// The value a Zicsr instruction writes back, or `None` when it only reads
/// (`csrrs`/`csrrc` and their immediate forms with a zero source field).
pub open spec fn csr_write_value(old: u32, source: u32, f3: u32, rs1: u32) -> Option<u32> {
    if f3 == 1 || f3 == 5 {
        Some(source)  // csrrw(i)

    } else if rs1 == 0 {
        None
    } else if f3 == 2 || f3 == 6 {
        Some(old | source)  // csrrs(i)

    } else {
        Some(old & !source)  // csrrc(i)

    }
}

/// The six Zicsr read/modify/write instructions (`funct3` other than 0 and
/// 4, which are not Zicsr encodings and are illegal here). The source is `rs1`'s value, or for the immediate forms the five-bit
/// `rs1` field itself. A write to a read-only CSR (`csr[11:10] == 0b11`)
/// traps; reads never do.
pub open spec fn csr_step(s: ArchState, m: Map<u32, u8>, d: Decoded) -> Outcome {
    let address = d.raw / 0x10_0000;
    let old = csr_read_spec(s, address);
    let source = if d.funct3 < 4 {
        reg_value(s, d.rs1)
    } else {
        d.rs1
    };
    if d.funct3 == 0 || d.funct3 == 4 {
        illegal(s, m)
    } else {
        match csr_write_value(old, source, d.funct3, d.rs1) {
            Some(v) => if address / 0x400 == 3 {
                illegal(s, m)
            } else {
                completed(
                    write_and_advance(ArchState { csrs: s.csrs.insert(address, v), ..s }, d.rd, old),
                    m,
                )
            },
            None => completed(write_and_advance(s, d.rd, old), m),
        }
    }
}

/// `SYSTEM`: `ecall` and `ebreak` stop without retiring (the program
/// counter stays put), other privileged instructions are not implemented,
/// and `funct3 == 4` is reserved. `ecall` and `ebreak` need zero `rd` and
/// `rs1` fields.
pub open spec fn system_step(s: ArchState, m: Map<u32, u8>, d: Decoded) -> Outcome {
    let funct12 = d.raw / 0x10_0000;
    if d.funct3 == 0 {
        if d.rd != 0 {
            illegal(s, m)
        } else if funct12 == 0 && d.rs1 == 0 {
            Outcome { state: s, mem: m, result: Ok(StepOutcome::Ecall) }
        } else if funct12 == 1 && d.rs1 == 0 {
            Outcome { state: s, mem: m, result: Ok(StepOutcome::Ebreak) }
        } else if funct12 <= 1 {
            illegal(s, m)
        } else {
            trapped(s, m, Trap::Unsupported("system"))
        }
    } else if d.funct3 == 4 {
        illegal(s, m)
    } else {
        csr_step(s, m, d)
    }
}

/// Execute the decoded instruction `d` in state `s` with memory `m`.
/// Instructions of the extensions this model does not implement (compressed,
/// atomics, floating point) raise `Unsupported`; other unknown encodings are
/// illegal.
pub open spec fn execute_spec(s: ArchState, m: Map<u32, u8>, d: Decoded) -> Outcome {
    let op = d.opcode;
    if op == opcode::OP_IMM {
        op_imm_step(s, m, d)
    } else if op == opcode::OP {
        op_step(s, m, d)
    } else if op == opcode::LOAD {
        load_step(s, m, d)
    } else if op == opcode::STORE {
        store_step(s, m, d)
    } else if op == opcode::BRANCH {
        branch_step(s, m, d)
    } else if op == opcode::JAL {
        jal_step(s, m, d)
    } else if op == opcode::JALR {
        jalr_step(s, m, d)
    } else if op == opcode::LUI {
        completed(write_and_advance(s, d.rd, wrap32(d.imm as int)), m)
    } else if op == opcode::AUIPC {
        completed(write_and_advance(s, d.rd, wrap32(s.pc + d.imm)), m)
    } else if op == opcode::MISC_MEM {
        misc_mem_step(s, m, d)
    } else if op == opcode::SYSTEM {
        system_step(s, m, d)
    } else if d.raw % 4 != 3 {
        // A 16-bit parcel: the all-zero parcel is defined illegal, the rest
        // belong to the compressed extension.
        if d.raw % 0x1_0000 == 0 {
            illegal(s, m)
        } else {
            trapped(s, m, Trap::Unsupported("compressed"))
        }
    } else if op == opcode::AMO {
        trapped(s, m, Trap::Unsupported("atomics"))
    } else if is_floating_point_opcode(op) {
        trapped(s, m, Trap::Unsupported("floating point"))
    } else {
        illegal(s, m)
    }
}

/// The major opcodes of the floating-point extensions (F/D).
pub open spec fn is_floating_point_opcode(op: u32) -> bool {
    op == opcode::LOAD_FP || op == opcode::STORE_FP || op == opcode::MADD || op == opcode::MSUB
        || op == opcode::NMSUB || op == opcode::NMADD || op == opcode::OP_FP
}

/// One step: count a cycle; trap if the program counter is not four-byte
/// aligned; otherwise fetch the little-endian word at the program counter,
/// decode and execute it, and count the instruction as retired when it
/// completed.
pub open spec fn step_spec(s0: ArchState, m: Map<u32, u8>) -> Outcome {
    let s = ArchState { cycle: tick(s0.cycle), ..s0 };
    if s0.pc % 4 != 0 {
        trapped(s, m, Trap::InstructionAddressMisaligned(s0.pc))
    } else {
        let o = execute_spec(s, m, decode_spec(s0.pc, load_le(m, s0.pc, 4) as u32));
        if o.result == Ok::<StepOutcome, Trap>(StepOutcome::Continue) {
            Outcome { state: ArchState { instret: tick(o.state.instret), ..o.state }, ..o }
        } else {
            o
        }
    }
}

/// How a run ends on a step that did not complete: an `ecall` or `ebreak`
/// stops it, a trap ends it with that trap.
pub open spec fn stopped(o: Outcome) -> RunOutcome {
    RunOutcome {
        state: o.state,
        mem: o.mem,
        result: match o.result {
            Ok(StepOutcome::Ecall) => Ok(StopReason::Ecall),
            Ok(StepOutcome::Ebreak) => Ok(StopReason::Ebreak),
            Ok(StepOutcome::Continue) => Ok(StopReason::Limit),
            Err(t) => Err(t),
        },
    }
}

/// Steps until an `ecall`, an `ebreak` or a trap, or until `budget` steps
/// have completed.
pub open spec fn run_spec(s: ArchState, m: Map<u32, u8>, budget: nat) -> RunOutcome
    decreases budget,
{
    if budget == 0 {
        RunOutcome { state: s, mem: m, result: Ok(StopReason::Limit) }
    } else {
        let o = step_spec(s, m);
        if o.result == Ok::<StepOutcome, Trap>(StepOutcome::Continue) {
            run_spec(o.state, o.mem, (budget - 1) as nat)
        } else {
            stopped(o)
        }
    }
}

/// The state and memory after `k` steps, whatever they report.
pub open spec fn after_steps(s: ArchState, m: Map<u32, u8>, k: nat) -> (ArchState, Map<u32, u8>)
    decreases k,
{
    if k == 0 {
        (s, m)
    } else {
        let o = step_spec(s, m);
        after_steps(o.state, o.mem, (k - 1) as nat)
    }
}

/// The outcome of step number `k` (counting from zero).
pub open spec fn step_at(s: ArchState, m: Map<u32, u8>, k: nat) -> Outcome {
    step_spec(after_steps(s, m, k).0, after_steps(s, m, k).1)
}

/// A run is the first `budget` steps: if every one of them completes, the
/// run reports `Limit` in the state after exactly `budget` steps; otherwise
/// the first step `k` that does not complete ends the run, reported as an
/// `ecall`, an `ebreak` or its trap, in the state after that step.
pub proof fn lemma_run_is_first_stop(s: ArchState, m: Map<u32, u8>, budget: nat, k: nat)
    ensures
        (forall|j: nat| j < budget ==> (#[trigger] step_at(s, m, j)).result == Ok::<
            StepOutcome,
            Trap,
        >(StepOutcome::Continue)) ==> run_spec(s, m, budget) == (RunOutcome {
            state: after_steps(s, m, budget).0,
            mem: after_steps(s, m, budget).1,
            result: Ok(StopReason::Limit),
        }),
        (k < budget && (forall|j: nat| j < k ==> (#[trigger] step_at(s, m, j)).result == Ok::<
            StepOutcome,
            Trap,
        >(StepOutcome::Continue)) && step_at(s, m, k).result != Ok::<StepOutcome, Trap>(
            StepOutcome::Continue,
        )) ==> run_spec(s, m, budget) == stopped(step_at(s, m, k)),
    decreases budget,
{
    if budget > 0 {
        let o = step_spec(s, m);
        assert(step_at(s, m, 0) == o);
        assert forall|j: nat| true implies #[trigger] step_at(o.state, o.mem, j) == step_at(
            s,
            m,
            j + 1,
        ) by {
            assert(after_steps(s, m, j + 1) == after_steps(o.state, o.mem, j));
        }
        assert(after_steps(s, m, budget) == after_steps(o.state, o.mem, (budget - 1) as nat));
        if k > 0 {
            lemma_run_is_first_stop(o.state, o.mem, (budget - 1) as nat, (k - 1) as nat);
        } else {
            lemma_run_is_first_stop(o.state, o.mem, (budget - 1) as nat, 0);
        }
        if forall|j: nat| j < budget ==> (#[trigger] step_at(s, m, j)).result == Ok::<
            StepOutcome,
            Trap,
        >(StepOutcome::Continue) {
            assert forall|j: nat| j < budget - 1 implies (#[trigger] step_at(o.state, o.mem, j)).result
                == Ok::<StepOutcome, Trap>(StepOutcome::Continue) by {
                assert(step_at(s, m, j + 1).result == Ok::<StepOutcome, Trap>(StepOutcome::Continue));
            }
        }
        if k > 0 && k < budget && (forall|j: nat| j < k ==> (#[trigger] step_at(s, m, j)).result
            == Ok::<StepOutcome, Trap>(StepOutcome::Continue)) {
            assert forall|j: nat| j < k - 1 implies (#[trigger] step_at(o.state, o.mem, j)).result
                == Ok::<StepOutcome, Trap>(StepOutcome::Continue) by {
                assert(step_at(s, m, j + 1).result == Ok::<StepOutcome, Trap>(StepOutcome::Continue));
            }
            assert(step_at(o.state, o.mem, (k - 1) as nat) == step_at(s, m, k));
        }
    }
}

/// The frame of one executed instruction: what `execute_spec` leaves alone.
pub open spec fn execute_frame(s: ArchState, m: Map<u32, u8>, d: Decoded, o: Outcome) -> bool {
    &&& o.state.cycle == s.cycle
    &&& o.state.instret == s.instret
    &&& o.result is Err ==> o.state == s && o.mem == m
    &&& (o.result == Ok::<StepOutcome, Trap>(StepOutcome::Ecall) || o.result == Ok::<
        StepOutcome,
        Trap,
    >(StepOutcome::Ebreak)) ==> o.state == s && o.mem == m
    &&& wf(s) ==> wf(o.state)
    &&& (s.pc % 4 == 0 && o.result is Ok) ==> o.state.pc % 4 == 0
    &&& o.mem != m ==> d.opcode == opcode::STORE && o.result == Ok::<StepOutcome, Trap>(
        StepOutcome::Continue,
    )
    &&& forall|a: u32| a / 0x400 == 3 ==> #[trigger] csr_value(o.state.csrs, a) == csr_value(s.csrs, a)
    &&& s.regs.len() == 32 ==> o.state.regs.len() == 32
    &&& s.regs.len() == 32 ==> forall|i: int|
        0 <= i < 32 && (i == 0 || i != d.rd) ==> #[trigger] o.state.regs[i] == s.regs[i]
    &&& d.opcode != opcode::SYSTEM ==> o.state.csrs == s.csrs
    &&& forall|a: u32|
        a != d.raw / 0x10_0000 ==> #[trigger] csr_value(o.state.csrs, a) == csr_value(s.csrs, a)
}

/// Moving to the next instruction keeps a four-byte aligned program counter
/// aligned.
proof fn lemma_next_pc_aligned(pc: u32)
    ensures
        pc % 4 == 0 ==> wrap32(pc + 4) % 4 == 0,
{
    crate::word::lemma_wrap_near(pc + 4);
}

/// The register and `funct3` fields of `d` fit their widths, as they do for
/// every instruction `decode` produces.
pub open spec fn fields_fit(d: Decoded) -> bool {
    &&& d.rd < 32
    &&& d.rs1 < 32
    &&& d.rs2 < 32
    &&& d.funct3 < 8
}

proof fn lemma_frame_op_imm(s: ArchState, m: Map<u32, u8>, d: Decoded)
    requires
        fields_fit(d),
        d.opcode == opcode::OP_IMM,
    ensures
        execute_frame(s, m, d, op_imm_step(s, m, d)),
{
    lemma_next_pc_aligned(s.pc);
}

proof fn lemma_frame_op(s: ArchState, m: Map<u32, u8>, d: Decoded)
    requires
        fields_fit(d),
        d.opcode == opcode::OP,
    ensures
        execute_frame(s, m, d, op_step(s, m, d)),
{
    lemma_next_pc_aligned(s.pc);
}

proof fn lemma_frame_load(s: ArchState, m: Map<u32, u8>, d: Decoded)
    requires
        fields_fit(d),
        d.opcode == opcode::LOAD,
    ensures
        execute_frame(s, m, d, load_step(s, m, d)),
{
    lemma_next_pc_aligned(s.pc);
}

proof fn lemma_frame_store(s: ArchState, m: Map<u32, u8>, d: Decoded)
    requires
        fields_fit(d),
        d.opcode == opcode::STORE,
    ensures
        execute_frame(s, m, d, store_step(s, m, d)),
{
    lemma_next_pc_aligned(s.pc);
}

proof fn lemma_frame_control(s: ArchState, m: Map<u32, u8>, d: Decoded)
    requires
        fields_fit(d),
        d.opcode == opcode::BRANCH || d.opcode == opcode::JAL || d.opcode == opcode::JALR,
    ensures
        execute_frame(s, m, d, branch_step(s, m, d)),
        execute_frame(s, m, d, jal_step(s, m, d)),
        execute_frame(s, m, d, jalr_step(s, m, d)),
{
    lemma_next_pc_aligned(s.pc);
}

proof fn lemma_frame_misc(s: ArchState, m: Map<u32, u8>, d: Decoded)
    requires
        fields_fit(d),
        d.opcode != opcode::STORE,
    ensures
        execute_frame(s, m, d, misc_mem_step(s, m, d)),
        execute_frame(s, m, d, completed(write_and_advance(s, d.rd, wrap32(d.imm as int)), m)),
        execute_frame(s, m, d, completed(write_and_advance(s, d.rd, wrap32(s.pc + d.imm)), m)),
        execute_frame(s, m, d, illegal(s, m)),
        forall|t: Trap| execute_frame(s, m, d, #[trigger] trapped(s, m, t)),
{
    lemma_next_pc_aligned(s.pc);
}

proof fn lemma_frame_system(s: ArchState, m: Map<u32, u8>, d: Decoded)
    requires
        fields_fit(d),
        d.opcode == opcode::SYSTEM,
    ensures
        execute_frame(s, m, d, system_step(s, m, d)),
{
    lemma_next_pc_aligned(s.pc);
    let o = system_step(s, m, d);
    if d.funct3 != 0 && d.funct3 != 4 {
        let address = d.raw / 0x10_0000;
        assert forall|a: u32| a / 0x400 == 3 implies #[trigger] csr_value(o.state.csrs, a)
            == csr_value(s.csrs, a) by {
            if a == address {
            }
        }
    }
}

proof fn lemma_execute_frame(s: ArchState, m: Map<u32, u8>, d: Decoded)
    requires
        fields_fit(d),
    ensures
        execute_frame(s, m, d, execute_spec(s, m, d)),
{
    let op = d.opcode;
    if op == opcode::OP_IMM {
        lemma_frame_op_imm(s, m, d);
    } else if op == opcode::OP {
        lemma_frame_op(s, m, d);
    } else if op == opcode::LOAD {
        lemma_frame_load(s, m, d);
    } else if op == opcode::STORE {
        lemma_frame_store(s, m, d);
    } else if op == opcode::BRANCH || op == opcode::JAL || op == opcode::JALR {
        lemma_frame_control(s, m, d);
    } else if op == opcode::SYSTEM {
        lemma_frame_system(s, m, d);
    } else {
        lemma_frame_misc(s, m, d);
    }
}

/// The facts every step keeps, gathered from the executed instruction.
proof fn lemma_step_frame(s: ArchState, m: Map<u32, u8>)
    ensures
        ({
            let o = step_spec(s, m);
            let ticked = ArchState { cycle: tick(s.cycle), ..s };
            &&& o.state.cycle == tick(s.cycle)
            &&& o.state.instret == (if o.result == Ok::<StepOutcome, Trap>(StepOutcome::Continue) {
                tick(s.instret)
            } else {
                s.instret
            })
            &&& o.result is Err ==> o.state == ticked && o.mem == m
            &&& (o.result == Ok::<StepOutcome, Trap>(StepOutcome::Ecall) || o.result == Ok::<
                StepOutcome,
                Trap,
            >(StepOutcome::Ebreak)) ==> o.state == ticked && o.mem == m
            &&& wf(s) ==> wf(o.state)
            &&& o.result is Ok ==> o.state.pc % 4 == 0
            &&& o.mem != m ==> opcode_of(load_le(m, s.pc, 4) as u32) == opcode::STORE
            &&& forall|a: u32|
                a / 0x400 == 3 ==> #[trigger] csr_value(o.state.csrs, a) == csr_value(s.csrs, a)
        }),
{
    if s.pc % 4 == 0 {
        let raw = load_le(m, s.pc, 4) as u32;
        let d = decode_spec(s.pc, raw);
        crate::isa::lemma_decoded_ranges(raw);
        lemma_execute_frame(ArchState { cycle: tick(s.cycle), ..s }, m, d);
    }
}

/// A step touches only what its instruction names: in a file of 32
/// registers, every register other than the destination field `rd` of the
/// fetched word keeps its value (and `x0` always does), memory changes only by a store that completes, and the
/// CSR store changes only by a `SYSTEM` instruction, at the CSR address its
/// word names.
pub proof fn lemma_step_touches_only_its_targets(s: ArchState, m: Map<u32, u8>)
    ensures
        ({
            let o = step_spec(s, m);
            let raw = load_le(m, s.pc, 4) as u32;
            &&& s.regs.len() == 32 ==> o.state.regs.len() == 32
            &&& s.regs.len() == 32 ==> forall|i: int|
                0 <= i < 32 && (i == 0 || i != rd_of(raw)) ==> #[trigger] o.state.regs[i]
                    == s.regs[i]
            &&& o.mem != m ==> opcode_of(raw) == opcode::STORE && o.result == Ok::<
                StepOutcome,
                Trap,
            >(StepOutcome::Continue)
            &&& opcode_of(raw) != opcode::SYSTEM ==> o.state.csrs == s.csrs
            &&& forall|a: u32|
                a != raw / 0x10_0000 ==> #[trigger] csr_value(o.state.csrs, a) == csr_value(
                    s.csrs,
                    a,
                )
        }),
{
    if s.pc % 4 == 0 {
        let raw = load_le(m, s.pc, 4) as u32;
        let d = decode_spec(s.pc, raw);
        crate::isa::lemma_decoded_ranges(raw);
        lemma_execute_frame(ArchState { cycle: tick(s.cycle), ..s }, m, d);
    }
}

/// Whether `a` is one of the counter CSRs served from the core's counters.
pub open spec fn is_counter_csr(a: u32) -> bool {
    a == addr::CYCLE || a == addr::CYCLEH || a == addr::INSTRET || a == addr::INSTRETH
}

/// Whether `d` is a Zicsr instruction on a counter CSR.
pub open spec fn reads_counter(d: Decoded) -> bool {
    &&& d.opcode == opcode::SYSTEM
    &&& d.funct3 != 0
    &&& d.funct3 != 4
    &&& is_counter_csr(d.raw / 0x10_0000)
}

/// Two executions agree on everything but the counters.
pub open spec fn agree_but_counters(o1: Outcome, o2: Outcome) -> bool {
    &&& o1.result == o2.result
    &&& o1.mem == o2.mem
    &&& o1.state.pc == o2.state.pc
    &&& o1.state.regs == o2.state.regs
    &&& o1.state.csrs == o2.state.csrs
}

proof fn lemma_counters_ignored_by_groups(s: ArchState, t: ArchState, m: Map<u32, u8>, d: Decoded)
    requires
        fields_fit(d),
        s.pc == t.pc,
        s.regs == t.regs,
        s.csrs == t.csrs,
        !reads_counter(d),
    ensures
        agree_but_counters(op_imm_step(s, m, d), op_imm_step(t, m, d)),
        agree_but_counters(op_step(s, m, d), op_step(t, m, d)),
        agree_but_counters(load_step(s, m, d), load_step(t, m, d)),
        agree_but_counters(store_step(s, m, d), store_step(t, m, d)),
        agree_but_counters(branch_step(s, m, d), branch_step(t, m, d)),
        agree_but_counters(jal_step(s, m, d), jal_step(t, m, d)),
        agree_but_counters(jalr_step(s, m, d), jalr_step(t, m, d)),
        agree_but_counters(misc_mem_step(s, m, d), misc_mem_step(t, m, d)),
        d.opcode == opcode::SYSTEM ==> agree_but_counters(system_step(s, m, d), system_step(t, m, d)),
        agree_but_counters(illegal(s, m), illegal(t, m)),
        forall|v: u32|
            agree_but_counters(
                #[trigger] completed(write_and_advance(s, d.rd, v), m),
                completed(write_and_advance(t, d.rd, v), m),
            ),
        forall|e: Trap| agree_but_counters(#[trigger] trapped(s, m, e), trapped(t, m, e)),
{
    if d.opcode == opcode::SYSTEM && d.funct3 != 0 && d.funct3 != 4 {
        assert(csr_read_spec(s, d.raw / 0x10_0000) == csr_read_spec(t, d.raw / 0x10_0000));
    }
}

/// Executing an instruction does not look at the counters unless it is a
/// Zicsr instruction on a counter CSR: two states that differ only in their
/// counters execute alike, and the counters themselves stay put.
pub proof fn lemma_execute_ignores_counters(s: ArchState, t: ArchState, m: Map<u32, u8>, d: Decoded)
    requires
        fields_fit(d),
        s.pc == t.pc,
        s.regs == t.regs,
        s.csrs == t.csrs,
        !reads_counter(d),
    ensures
        agree_but_counters(execute_spec(s, m, d), execute_spec(t, m, d)),
        execute_spec(s, m, d).state.cycle == s.cycle,
        execute_spec(s, m, d).state.instret == s.instret,
{
    lemma_counters_ignored_by_groups(s, t, m, d);
    lemma_execute_frame(s, m, d);
    let o1 = execute_spec(s, m, d);
    let o2 = execute_spec(t, m, d);
    let op = d.opcode;
    if op == opcode::LUI {
        assert(o1 == completed(write_and_advance(s, d.rd, wrap32(d.imm as int)), m));
    } else if op == opcode::AUIPC {
        assert(o1 == completed(write_and_advance(s, d.rd, wrap32(s.pc + d.imm)), m));
        assert(o2 == completed(write_and_advance(t, d.rd, wrap32(s.pc + d.imm)), m));
    }
}

/// A step counts a cycle and then executes the fetched instruction: apart
/// from the counters, it does what executing the decoded word does in the
/// state before the step, unless that word is a Zicsr instruction on a
/// counter CSR (which sees the counted cycle).
pub proof fn lemma_step_is_execute(s: ArchState, m: Map<u32, u8>)
    requires
        s.pc % 4 == 0,
        !reads_counter(decode_spec(s.pc, load_le(m, s.pc, 4) as u32)),
    ensures
        agree_but_counters(
            step_spec(s, m),
            execute_spec(s, m, decode_spec(s.pc, load_le(m, s.pc, 4) as u32)),
        ),
{
    let raw = load_le(m, s.pc, 4) as u32;
    crate::isa::lemma_decoded_ranges(raw);
    lemma_execute_ignores_counters(
        ArchState { cycle: tick(s.cycle), ..s },
        s,
        m,
        decode_spec(s.pc, raw),
    );
}

/// A step that traps changes nothing but the cycle count: the program
/// counter, the registers, the CSRs, the retired count and memory stay as
/// they were (a trapping jump does not link, a trapping store writes
/// nothing).
pub proof fn lemma_trap_has_no_effect(s: ArchState, m: Map<u32, u8>)
    requires
        step_spec(s, m).result is Err,
    ensures
        step_spec(s, m).state == (ArchState { cycle: tick(s.cycle), ..s }),
        step_spec(s, m).mem == m,
{
    lemma_step_frame(s, m);
}

/// `ecall` and `ebreak` stop without retiring: like a trap, they change
/// nothing but the cycle count.
pub proof fn lemma_stop_does_not_retire(s: ArchState, m: Map<u32, u8>)
    requires
        step_spec(s, m).result == Ok::<StepOutcome, Trap>(StepOutcome::Ecall) || step_spec(
            s,
            m,
        ).result == Ok::<StepOutcome, Trap>(StepOutcome::Ebreak),
    ensures
        step_spec(s, m).state == (ArchState { cycle: tick(s.cycle), ..s }),
        step_spec(s, m).mem == m,
{
    lemma_step_frame(s, m);
}

/// Every step counts one cycle; exactly the steps that complete an
/// instruction count one retired instruction.
pub proof fn lemma_step_counters(s: ArchState, m: Map<u32, u8>)
    ensures
        step_spec(s, m).state.cycle == tick(s.cycle),
        step_spec(s, m).state.instret == (if step_spec(s, m).result == Ok::<StepOutcome, Trap>(
            StepOutcome::Continue,
        ) {
            tick(s.instret)
        } else {
            s.instret
        }),
{
    lemma_step_frame(s, m);
}

/// A step keeps the state well formed: still 32 registers, `x0` still zero.
pub proof fn lemma_step_preserves_wf(s: ArchState, m: Map<u32, u8>)
    requires
        wf(s),
    ensures
        wf(step_spec(s, m).state),
{
    lemma_step_frame(s, m);
}

/// After a step that does not trap, the program counter is four-byte
/// aligned.
pub proof fn lemma_step_keeps_pc_aligned(s: ArchState, m: Map<u32, u8>)
    requires
        step_spec(s, m).result is Ok,
    ensures
        step_spec(s, m).state.pc % 4 == 0,
{
    lemma_step_frame(s, m);
}

/// Only a store changes memory.
pub proof fn lemma_only_stores_write_memory(s: ArchState, m: Map<u32, u8>)
    requires
        step_spec(s, m).mem != m,
    ensures
        opcode_of(load_le(m, s.pc, 4) as u32) == opcode::STORE,
        step_spec(s, m).result == Ok::<StepOutcome, Trap>(StepOutcome::Continue),
{
    lemma_step_frame(s, m);
}

/// No step changes a read-only CSR (`csr[11:10] == 0b11`).
pub proof fn lemma_read_only_csrs_unchanged(s: ArchState, m: Map<u32, u8>, a: u32)
    requires
        a / 0x400 == 3,
    ensures
        csr_value(step_spec(s, m).state.csrs, a) == csr_value(s.csrs, a),
{
    lemma_step_frame(s, m);
}

/// A 64-bit counter advanced by `n` ticks.
pub open spec fn ticks(c: u64, n: nat) -> u64 {
    ((c + n) % 0x1_0000_0000_0000_0000) as u64
}

proof fn lemma_tick_ticks(c: u64, n: nat)
    ensures
        ticks(tick(c), n) == ticks(c, n + 1),
{
    let w: int = 0x1_0000_0000_0000_0000;
    if c == u64::MAX {
        vstd::arithmetic::div_mod::lemma_mod_add_multiples_vanish(n as int, w);
    }
}

/// A run that uses up its budget completed every step: both counters
/// advanced by the budget. Every run keeps the state well formed.
pub proof fn lemma_run_counts(s: ArchState, m: Map<u32, u8>, budget: nat)
    ensures
        wf(s) ==> wf(run_spec(s, m, budget).state),
        run_spec(s, m, budget).result == Ok::<StopReason, Trap>(StopReason::Limit) ==> {
            &&& run_spec(s, m, budget).state.cycle == ticks(s.cycle, budget)
            &&& run_spec(s, m, budget).state.instret == ticks(s.instret, budget)
        },
    decreases budget,
{
    if budget == 0 {
        vstd::arithmetic::div_mod::lemma_small_mod(s.cycle as nat, 0x1_0000_0000_0000_0000);
        vstd::arithmetic::div_mod::lemma_small_mod(s.instret as nat, 0x1_0000_0000_0000_0000);
    } else {
        let o = step_spec(s, m);
        lemma_step_frame(s, m);
        lemma_run_counts(o.state, o.mem, (budget - 1) as nat);
        lemma_tick_ticks(s.cycle, (budget - 1) as nat);
        lemma_tick_ticks(s.instret, (budget - 1) as nat);
    }
}

} // verus!
