//! CPU state and the RV32IM + Zicsr execute loop.
//!
//! `Cpu` owns the program counter, the integer register file, a CSR
//! container and the `cycle`/`instret` counters. `step` fetches, decodes,
//! and executes one instruction against a `Memory`. Instructions of
//! extensions outside the implemented RV32IM + Zicsr base (compressed,
//! atomics, floating point) raise [`Trap::Unsupported`] rather than
//! fabricating a result, and a trapping instruction leaves registers,
//! program counter and memory as they were.

use vstd::prelude::*;
use crate::alu;
use crate::arch::{
    ArchState, Outcome, RunOutcome, wf, tick, reg_value, write_reg, csr_read_spec, op_imm_step,
    op_step, load_step, store_step, branch_step, jal_step, jalr_step, misc_mem_step, system_step,
    csr_step, execute_spec, step_spec, run_spec, effective_address, fields_fit,
};
use crate::csr::{Csr, addr};
use crate::isa::{self, Decoded, lemma_decoded_ranges, opcode, funct3};
use crate::mem::{Memory, lemma_load_le_bound, pow256};
use crate::word::{add_wrap, to_word, to_signed, wrap32, sext, lemma_wrap_near, lemma_wrap_shift};

verus! {

/// Outcome of executing a single instruction.
#[derive(Debug, Clone, Copy, PartialEq, Eq)]
pub enum StepOutcome {
    /// Instruction retired normally; PC already advanced.
    Continue,
    /// `ecall` was executed — the program requested an environment call.
    Ecall,
    /// `ebreak` was executed — the program halted (debug breakpoint).
    Ebreak,
}

/// Reason the `run` loop stopped.
#[derive(Debug, Clone, Copy, PartialEq, Eq)]
pub enum StopReason {
    /// Stopped on `ecall`.
    Ecall,
    /// Stopped on `ebreak`.
    Ebreak,
    /// Instruction budget exhausted — did not halt on its own.
    Limit,
}

/// A trap raised while executing an instruction.
#[derive(Debug, Clone, PartialEq, Eq)]
pub enum Trap {
    /// The instruction at the given program counter is not a valid RV32IMZicsr
    /// instruction.
    IllegalInstruction(u32),
    /// A fetch from, or a taken jump or branch to, the given address that is
    /// not four-byte aligned.
    InstructionAddressMisaligned(u32),
    /// A half-word or word load from the given address that is not naturally
    /// aligned.
    LoadAddressMisaligned(u32),
    /// A half-word or word store to the given address that is not naturally
    /// aligned.
    StoreAddressMisaligned(u32),
    /// A recognized-but-unimplemented extension (compressed, atomics,
    /// floating point) or privileged system instruction; the string names it.
    Unsupported(&'static str),
}

/// A RISC-V CPU with RV32IM integer execution.
pub struct Cpu {
    pc: u32,
    x: [u32; 32],
    csr: Csr,
    cycle: u64,
    instret: u64,
}

impl View for Cpu {
    type V = ArchState;

    closed spec fn view(&self) -> ArchState {
        ArchState {
            pc: self.pc,
            regs: self.x@,
            csrs: self.csr@,
            cycle: self.cycle,
            instret: self.instret,
        }
    }
}

impl Default for Cpu {
    fn default() -> (r: Self)
        ensures
            r@ == Cpu::reset_state(),
    {
        Self::new()
    }
}

impl Cpu {
    /// `x0` is hard-wired to zero.
    #[verifier::type_invariant]
    spec fn x0_is_zero(self) -> bool {
        self.x@[0] == 0
    }

    /// The state of a fresh CPU: PC = 0, all registers zero, empty CSR
    /// file, counters at zero.
    pub open spec fn reset_state() -> ArchState {
        ArchState {
            pc: 0,
            regs: Seq::new(32, |i: int| 0u32),
            csrs: Map::empty(),
            cycle: 0,
            instret: 0,
        }
    }

    /// Create a fresh CPU: PC = 0, all registers zero, empty CSR file.
    pub fn new() -> (r: Self)
        ensures
            r@ == Cpu::reset_state(),
            wf(r@),
    {
        let r = Cpu { pc: 0, x: [0u32; 32], csr: Csr::new(), cycle: 0, instret: 0 };
        assert(r@.regs =~= Cpu::reset_state().regs);
        r
    }

    /// Current program counter.
    pub fn pc(&self) -> (r: u32)
        ensures
            r == self@.pc,
            wf(self@),
    {
        proof {
            use_type_invariant(self);
        }
        self.pc
    }

    /// Set the program counter (e.g. to a reset vector).
    pub fn set_pc(&mut self, pc: u32)
        ensures
            final(self)@ == (ArchState { pc, ..old(self)@ }),
            wf(final(self)@),
    {
        proof {
            use_type_invariant(&*self);
        }
        self.pc = pc;
    }

    /// Read an integer register (the index is masked to the register
    /// window). `x0` is always zero.
    pub fn reg(&self, i: u32) -> (r: u32)
        ensures
            r == self@.regs[(i % 32) as int],
            wf(self@),
            i % 32 == 0 ==> r == 0,
    {
        proof {
            use_type_invariant(self);
        }
        assert(i & 31 == i % 32) by (bit_vector);
        self.x[(i & 31) as usize]
    }

    /// Read-only access to the CSR file.
    pub fn csr(&self) -> (r: &Csr)
        ensures
            r@ == self@.csrs,
            wf(self@),
    {
        proof {
            use_type_invariant(self);
        }
        &self.csr
    }

    /// Cycles counted so far (one per step).
    pub fn cycle(&self) -> (r: u64)
        ensures
            r == self@.cycle,
            wf(self@),
    {
        proof {
            use_type_invariant(self);
        }
        self.cycle
    }

    /// Instructions retired so far.
    pub fn instret(&self) -> (r: u64)
        ensures
            r == self@.instret,
            wf(self@),
    {
        proof {
            use_type_invariant(self);
        }
        self.instret
    }

    /// Read register `rs` (`rs < 32`).
    fn x(&self, rs: u32) -> (r: u32)
        requires
            rs < 32,
        ensures
            r == reg_value(self@, rs),
    {
        self.x[rs as usize]
    }

    /// Write `rd`; writes to `x0` are discarded (it is hard-wired to zero).
    fn write_rd(&mut self, rd: u32, val: u32)
        requires
            rd < 32,
        ensures
            final(self)@ == (ArchState { regs: write_reg(old(self)@.regs, rd, val), ..old(self)@ }),
    {
        proof {
            use_type_invariant(&*self);
        }
        if rd != 0 {
            self.x[rd as usize] = val;
        }
    }

    /// The value a CSR instruction reads at `address`.
    fn read_csr(&self, address: u32) -> (r: u32)
        ensures
            r == csr_read_spec(self@, address),
    {
        if address == addr::CYCLE {
            (self.cycle % 0x1_0000_0000) as u32
        } else if address == addr::CYCLEH {
            (self.cycle / 0x1_0000_0000) as u32
        } else if address == addr::INSTRET {
            (self.instret % 0x1_0000_0000) as u32
        } else if address == addr::INSTRETH {
            (self.instret / 0x1_0000_0000) as u32
        } else {
            self.csr.read(address)
        }
    }
}

impl Cpu {
    /// `OP-IMM`.
    fn exec_op_imm(&mut self, d: Decoded, mem: &Memory) -> (r: Result<StepOutcome, Trap>)
        requires
            fields_fit(d),
        ensures
            op_imm_step(old(self)@, mem@, d) == (Outcome {
                state: final(self)@,
                mem: mem@,
                result: r,
            }),
    {
        proof {
            use_type_invariant(&*self);
        }
        let pc = self.pc;
        match alu::op_imm(self.x(d.rs1), d) {
            Some(val) => {
                self.write_rd(d.rd, val);
                self.pc = add_wrap(pc, 4);
                Ok(StepOutcome::Continue)
            },
            None => Err(Trap::IllegalInstruction(pc)),
        }
    }

    /// `OP`.
    fn exec_op(&mut self, d: Decoded, mem: &Memory) -> (r: Result<StepOutcome, Trap>)
        requires
            fields_fit(d),
        ensures
            op_step(old(self)@, mem@, d) == (Outcome { state: final(self)@, mem: mem@, result: r }),
    {
        proof {
            use_type_invariant(&*self);
        }
        let pc = self.pc;
        let a = self.x(d.rs1);
        let b = self.x(d.rs2);
        match alu::op(a, b, d) {
            Some(val) => {
                self.write_rd(d.rd, val);
                self.pc = add_wrap(pc, 4);
                Ok(StepOutcome::Continue)
            },
            None => Err(Trap::IllegalInstruction(pc)),
        }
    }

    /// `LUI` and `AUIPC`: write the U-type immediate, or the program counter
    /// plus it, to `rd`.
    fn exec_upper(&mut self, d: Decoded, mem: &Memory) -> (r: Result<StepOutcome, Trap>)
        requires
            fields_fit(d),
            d.opcode == opcode::LUI || d.opcode == opcode::AUIPC,
        ensures
            execute_spec(old(self)@, mem@, d) == (Outcome {
                state: final(self)@,
                mem: mem@,
                result: r,
            }),
    {
        proof {
            use_type_invariant(&*self);
        }
        proof {
            lemma_wrap_near(d.imm as int);
            if d.imm < 0 {
                lemma_wrap_shift(self.pc + d.imm, 1);
            }
        }
        let pc = self.pc;
        let imm = to_word(d.imm);
        if d.opcode == opcode::LUI {
            self.write_rd(d.rd, imm);
        } else {
            self.write_rd(d.rd, add_wrap(pc, imm));
        }
        self.pc = add_wrap(pc, 4);
        Ok(StepOutcome::Continue)
    }

    /// `MISC-MEM`: `fence`, `fence.tso` and `fence.i` have no memory-order or
    /// I-cache side effect for a single-hart integer functional model.
    fn exec_misc_mem(&mut self, d: Decoded, mem: &Memory) -> (r: Result<StepOutcome, Trap>)
        requires
            fields_fit(d),
        ensures
            misc_mem_step(old(self)@, mem@, d) == (Outcome {
                state: final(self)@,
                mem: mem@,
                result: r,
            }),
    {
        proof {
            use_type_invariant(&*self);
        }
        let pc = self.pc;
        let raw = d.raw;
        let fm = raw >> 28;
        assert(raw >> 28 == raw / 0x1000_0000) by (bit_vector);
        if d.funct3 == 0 {
            if fm == 0 || fm == 8 {
                self.pc = add_wrap(pc, 4);
                Ok(StepOutcome::Continue)
            } else {
                Err(Trap::IllegalInstruction(pc))
            }
        } else if d.funct3 == 1 {
            self.pc = add_wrap(pc, 4);
            Ok(StepOutcome::Continue)
        } else {
            Err(Trap::IllegalInstruction(pc))
        }
    }
}

/// `base + imm`, wrapping.
fn offset_by(base: u32, imm: i32) -> (r: u32)
    ensures
        r == wrap32(base + imm),
{
    proof {
        lemma_wrap_near(imm as int);
        if imm < 0 {
            lemma_wrap_shift(base + imm, 1);
        }
    }
    add_wrap(base, to_word(imm))
}

/// A loaded byte, sign-extended to a register.
fn sext_byte(v: u64) -> (r: u32)
    requires
        v < 0x100,
    ensures
        r == wrap32(sext(v as int, 0x100)),
{
    assert((((v as u8) as i8) as i32) as u32 == (if v < 0x80u64 {
        v as u32
    } else {
        (v + 0xFFFF_FF00u64) as u32
    })) by (bit_vector)
        requires
            v < 0x100,
    ;
    proof {
        lemma_wrap_near(sext(v as int, 0x100));
    }
    (((v as u8) as i8) as i32) as u32
}

/// A loaded half-word, sign-extended to a register.
fn sext_half(v: u64) -> (r: u32)
    requires
        v < 0x1_0000,
    ensures
        r == wrap32(sext(v as int, 0x1_0000)),
{
    assert((((v as u16) as i16) as i32) as u32 == (if v < 0x8000u64 {
        v as u32
    } else {
        (v + 0xFFFF_0000u64) as u32
    })) by (bit_vector)
        requires
            v < 0x1_0000,
    ;
    proof {
        lemma_wrap_near(sext(v as int, 0x1_0000));
    }
    (((v as u16) as i16) as i32) as u32
}

impl Cpu {
    /// The effective address `rs1 + imm` of a load or store.
    fn address(&self, d: Decoded) -> (r: u32)
        requires
            d.rs1 < 32,
        ensures
            r == effective_address(self@, d),
    {
        offset_by(self.x(d.rs1), d.imm)
    }

    /// `LOAD`.
    fn exec_load(&mut self, d: Decoded, mem: &Memory) -> (r: Result<StepOutcome, Trap>)
        requires
            fields_fit(d),
        ensures
            load_step(old(self)@, mem@, d) == (Outcome { state: final(self)@, mem: mem@, result: r }),
    {
        proof {
            use_type_invariant(&*self);
            reveal_with_fuel(pow256, 5);
        }
        let pc = self.pc;
        let addr = self.address(d);
        let f3 = d.funct3;
        proof {
            lemma_load_le_bound(mem@, addr, 1);
            lemma_load_le_bound(mem@, addr, 2);
            lemma_load_le_bound(mem@, addr, 4);
        }
        if f3 == funct3::LB {
            let val = sext_byte(mem.read_bytes(addr, 1));
            self.write_rd(d.rd, val);
        } else if f3 == funct3::LH {
            if addr % 2 != 0 {
                return Err(Trap::LoadAddressMisaligned(addr));
            }
            let val = sext_half(mem.read_bytes(addr, 2));
            self.write_rd(d.rd, val);
        } else if f3 == funct3::LW {
            if addr % 4 != 0 {
                return Err(Trap::LoadAddressMisaligned(addr));
            }
            let val = mem.read_bytes(addr, 4) as u32;
            self.write_rd(d.rd, val);
        } else if f3 == funct3::LBU {
            let val = mem.read_bytes(addr, 1) as u32;
            self.write_rd(d.rd, val);
        } else if f3 == funct3::LHU {
            if addr % 2 != 0 {
                return Err(Trap::LoadAddressMisaligned(addr));
            }
            let val = mem.read_bytes(addr, 2) as u32;
            self.write_rd(d.rd, val);
        } else {
            return Err(Trap::IllegalInstruction(pc));
        }
        self.pc = add_wrap(pc, 4);
        Ok(StepOutcome::Continue)
    }

    /// `STORE`.
    fn exec_store(&mut self, d: Decoded, mem: &mut Memory) -> (r: Result<StepOutcome, Trap>)
        requires
            fields_fit(d),
        ensures
            store_step(old(self)@, old(mem)@, d) == (Outcome {
                state: final(self)@,
                mem: final(mem)@,
                result: r,
            }),
    {
        proof {
            use_type_invariant(&*self);
        }
        let pc = self.pc;
        let addr = self.address(d);
        let val = self.x(d.rs2);
        let f3 = d.funct3;
        if f3 == funct3::SB {
            mem.write_bytes(addr, 1, val as u64);
        } else if f3 == funct3::SH {
            if addr % 2 != 0 {
                return Err(Trap::StoreAddressMisaligned(addr));
            }
            mem.write_bytes(addr, 2, val as u64);
        } else if f3 == funct3::SW {
            if addr % 4 != 0 {
                return Err(Trap::StoreAddressMisaligned(addr));
            }
            mem.write_bytes(addr, 4, val as u64);
        } else {
            return Err(Trap::IllegalInstruction(pc));
        }
        self.pc = add_wrap(pc, 4);
        Ok(StepOutcome::Continue)
    }

    /// `BRANCH`.
    fn exec_branch(&mut self, d: Decoded, mem: &Memory) -> (r: Result<StepOutcome, Trap>)
        requires
            fields_fit(d),
        ensures
            branch_step(old(self)@, mem@, d) == (Outcome {
                state: final(self)@,
                mem: mem@,
                result: r,
            }),
    {
        proof {
            use_type_invariant(&*self);
        }
        let pc = self.pc;
        let a = self.x(d.rs1);
        let b = self.x(d.rs2);
        let f3 = d.funct3;
        if !(f3 == funct3::BEQ || f3 == funct3::BNE || f3 == funct3::BLT || f3 == funct3::BGE || f3
            == funct3::BLTU || f3 == funct3::BGEU) {
            return Err(Trap::IllegalInstruction(pc));
        }
        let taken = if f3 == funct3::BEQ {
            a == b
        } else if f3 == funct3::BNE {
            a != b
        } else if f3 == funct3::BLT {
            to_signed(a) < to_signed(b)
        } else if f3 == funct3::BGE {
            to_signed(a) >= to_signed(b)
        } else if f3 == funct3::BLTU {
            a < b
        } else {
            a >= b
        };
        if taken {
            let target = offset_by(pc, d.imm);
            if target % 4 != 0 {
                return Err(Trap::InstructionAddressMisaligned(target));
            }
            self.pc = target;
        } else {
            self.pc = add_wrap(pc, 4);
        }
        Ok(StepOutcome::Continue)
    }

    /// `JAL`.
    fn exec_jal(&mut self, d: Decoded, mem: &Memory) -> (r: Result<StepOutcome, Trap>)
        requires
            fields_fit(d),
        ensures
            jal_step(old(self)@, mem@, d) == (Outcome { state: final(self)@, mem: mem@, result: r }),
    {
        proof {
            use_type_invariant(&*self);
        }
        let pc = self.pc;
        let target = offset_by(pc, d.imm);
        if target % 4 != 0 {
            return Err(Trap::InstructionAddressMisaligned(target));
        }
        self.write_rd(d.rd, add_wrap(pc, 4));
        self.pc = target;
        Ok(StepOutcome::Continue)
    }

    /// `JALR`.
    fn exec_jalr(&mut self, d: Decoded, mem: &Memory) -> (r: Result<StepOutcome, Trap>)
        requires
            fields_fit(d),
        ensures
            jalr_step(old(self)@, mem@, d) == (Outcome {
                state: final(self)@,
                mem: mem@,
                result: r,
            }),
    {
        proof {
            use_type_invariant(&*self);
        }
        let pc = self.pc;
        if d.funct3 != 0 {
            return Err(Trap::IllegalInstruction(pc));
        }
        let sum = self.address(d);
        let target = sum & !1u32;
        assert(sum & !1u32 == sum / 2 * 2) by (bit_vector);
        if target % 4 != 0 {
            return Err(Trap::InstructionAddressMisaligned(target));
        }
        self.write_rd(d.rd, add_wrap(pc, 4));
        self.pc = target;
        Ok(StepOutcome::Continue)
    }

    /// Execute one of the six Zicsr read/modify/write instructions.
    fn exec_csr(&mut self, d: Decoded, mem: &Memory) -> (r: Result<StepOutcome, Trap>)
        requires
            fields_fit(d),
        ensures
            csr_step(old(self)@, mem@, d) == (Outcome { state: final(self)@, mem: mem@, result: r }),
    {
        proof {
            use_type_invariant(&*self);
        }
        let pc = self.pc;
        let raw = d.raw;
        let address = raw >> 20;
        assert(raw >> 20 == raw / 0x10_0000) by (bit_vector);
        let old_value = self.read_csr(address);
        let f3 = d.funct3;
        if f3 == 0 || f3 == 4 {
            return Err(Trap::IllegalInstruction(pc));
        }
        assert(f3 & 0b100 == 0 <==> f3 < 4) by (bit_vector)
            requires
                f3 < 8,
        ;
        // The rs1 field encodes the five-bit immediate (zimm) in the `i` forms.
        let source = if f3 & 0b100 == 0 {
            self.x(d.rs1)
        } else {
            d.rs1
        };
        let write = if f3 == 1 || f3 == 5 {
            Some(source)  // csrrw(i)

        } else if d.rs1 == 0 {
            None
        } else if f3 == 2 || f3 == 6 {
            Some(old_value | source)  // csrrs(i)

        } else {
            Some(old_value & !source)  // csrrc(i)

        };
        // csr[11:10] = 0b11 denotes a read-only CSR. Pure reads through
        // CSRRS/CSRRC with a zero source remain legal.
        match write {
            Some(value) => {
                assert((address >> 10) & 0b11 == address / 0x400) by (bit_vector)
                    requires
                        address == raw >> 20,
                ;
                if (address >> 10) & 0b11 == 0b11 {
                    return Err(Trap::IllegalInstruction(pc));
                }
                let mut file = Csr::new();
                std::mem::swap(&mut file, &mut self.csr);
                file.write(address, value);
                self.csr = file;
            },
            None => {},
        }
        self.write_rd(d.rd, old_value);
        self.pc = add_wrap(pc, 4);
        Ok(StepOutcome::Continue)
    }

    /// `SYSTEM`: `ecall`, `ebreak` and the Zicsr instructions.
    fn exec_system(&mut self, d: Decoded, mem: &Memory) -> (r: Result<StepOutcome, Trap>)
        requires
            fields_fit(d),
        ensures
            system_step(old(self)@, mem@, d) == (Outcome {
                state: final(self)@,
                mem: mem@,
                result: r,
            }),
    {
        let pc = self.pc;
        let raw = d.raw;
        let funct12 = raw >> 20;
        assert(raw >> 20 == raw / 0x10_0000) by (bit_vector);
        if d.funct3 == 0 {
            if d.rd != 0 {
                Err(Trap::IllegalInstruction(pc))
            } else if funct12 == 0 && d.rs1 == 0 {
                Ok(StepOutcome::Ecall)
            } else if funct12 == 1 && d.rs1 == 0 {
                Ok(StepOutcome::Ebreak)
            } else if funct12 <= 1 {
                Err(Trap::IllegalInstruction(pc))
            } else {
                // mret/sret/wfi and other system instructions.
                Err(Trap::Unsupported("system"))
            }
        } else if d.funct3 == 4 {
            Err(Trap::IllegalInstruction(pc))
        } else {
            self.exec_csr(d, mem)
        }
    }
}

impl Cpu {
    /// Execute instructions until an `ecall`/`ebreak`, a trap, or until the
    /// instruction budget is exhausted.
    pub fn run(&mut self, mem: &mut Memory, budget: u64) -> (r: Result<StopReason, Trap>)
        ensures
            run_spec(old(self)@, old(mem)@, budget as nat) == (RunOutcome {
                state: final(self)@,
                mem: final(mem)@,
                result: r,
            }),
            wf(final(self)@),
    {
        proof {
            use_type_invariant(&*self);
        }
        let mut done: u64 = 0;
        while done < budget
            invariant
                done <= budget,
                run_spec(old(self)@, old(mem)@, budget as nat) == run_spec(
                    self@,
                    mem@,
                    (budget - done) as nat,
                ),
                wf(self@),
            decreases budget - done,
        {
            match self.step(mem) {
                Ok(StepOutcome::Continue) => {},
                Ok(StepOutcome::Ecall) => return Ok(StopReason::Ecall),
                Ok(StepOutcome::Ebreak) => return Ok(StopReason::Ebreak),
                Err(t) => return Err(t),
            }
            done = done + 1;
        }
        Ok(StopReason::Limit)
    }

    /// Fetch, decode, and execute a single instruction.
    pub fn step(&mut self, mem: &mut Memory) -> (r: Result<StepOutcome, Trap>)
        ensures
            step_spec(old(self)@, old(mem)@) == (Outcome {
                state: final(self)@,
                mem: final(mem)@,
                result: r,
            }),
            wf(final(self)@),
    {
        proof {
            use_type_invariant(&*self);
        }
        self.cycle = tick_counter(self.cycle);
        let pc = self.pc;
        if pc % 4 != 0 {
            return Err(Trap::InstructionAddressMisaligned(pc));
        }
        let raw = mem.load_u32(pc);
        let inst = isa::decode(pc, raw);
        proof {
            lemma_decoded_ranges(raw);
        }
        let r = self.execute(inst, mem);
        proof {
            use_type_invariant(&*self);
        }
        match r {
            Ok(StepOutcome::Continue) => {
                self.instret = tick_counter(self.instret);
            },
            _ => {},
        }
        r
    }

    fn execute(&mut self, inst: Decoded, mem: &mut Memory) -> (r: Result<StepOutcome, Trap>)
        requires
            fields_fit(inst),
        ensures
            execute_spec(old(self)@, old(mem)@, inst) == (Outcome {
                state: final(self)@,
                mem: final(mem)@,
                result: r,
            }),
    {
        let op = inst.opcode;
        if op == opcode::OP_IMM {
            self.exec_op_imm(inst, mem)
        } else if op == opcode::OP {
            self.exec_op(inst, mem)
        } else if op == opcode::LOAD {
            self.exec_load(inst, mem)
        } else if op == opcode::STORE {
            self.exec_store(inst, mem)
        } else if op == opcode::BRANCH {
            self.exec_branch(inst, mem)
        } else if op == opcode::JAL {
            self.exec_jal(inst, mem)
        } else if op == opcode::JALR {
            self.exec_jalr(inst, mem)
        } else if op == opcode::LUI || op == opcode::AUIPC {
            self.exec_upper(inst, mem)
        } else if op == opcode::MISC_MEM {
            self.exec_misc_mem(inst, mem)
        } else if op == opcode::SYSTEM {
            self.exec_system(inst, mem)
        } else {
            let raw = inst.raw;
            assert(raw & 3 == raw % 4 && raw & 0xffff == raw % 0x1_0000) by (bit_vector);
            if raw & 3 != 3 {
                if raw & 0xffff == 0 {
                    Err(Trap::IllegalInstruction(self.pc))
                } else {
                    Err(Trap::Unsupported("compressed"))
                }
            } else if op == opcode::AMO {
                Err(Trap::Unsupported("atomics"))
            } else if op == opcode::LOAD_FP || op == opcode::STORE_FP || op == opcode::MADD || op
                == opcode::MSUB || op == opcode::NMSUB || op == opcode::NMADD || op == opcode::OP_FP {
                Err(Trap::Unsupported("floating point"))
            } else {
                Err(Trap::IllegalInstruction(self.pc))
            }
        }
    }
}

/// A 64-bit counter after one more tick.
fn tick_counter(c: u64) -> (r: u64)
    ensures
        r == tick(c),
{
    if c == u64::MAX {
        0
    } else {
        c + 1
    }
}

} // verus!
