//! Instruction semantics, traps and counters, on hand-encoded programs.

use chips::cpu::{Cpu, StepOutcome, StopReason, Trap};
use chips::csr::addr;
use chips::mem::Memory;

const OP_IMM: u32 = 0x13;
const OP: u32 = 0x33;
const LOAD: u32 = 0x03;
const STORE: u32 = 0x23;
const BRANCH: u32 = 0x63;
const SYSTEM: u32 = 0x73;
const EBREAK: u32 = 0x0010_0073;

fn r_type(funct7: u32, rs2: u32, rs1: u32, funct3: u32, rd: u32, opcode: u32) -> u32 {
    (funct7 << 25) | (rs2 << 20) | (rs1 << 15) | (funct3 << 12) | (rd << 7) | opcode
}

fn i_type(imm: i32, rs1: u32, funct3: u32, rd: u32, opcode: u32) -> u32 {
    (((imm as u32) & 0xfff) << 20) | (rs1 << 15) | (funct3 << 12) | (rd << 7) | opcode
}

fn s_type(imm: i32, rs2: u32, rs1: u32, funct3: u32) -> u32 {
    let imm = imm as u32;
    (((imm >> 5) & 0x7f) << 25) | (rs2 << 20) | (rs1 << 15) | (funct3 << 12) | ((imm & 0x1f) << 7) | STORE
}

fn b_type(imm: i32, rs2: u32, rs1: u32, funct3: u32) -> u32 {
    let imm = imm as u32;
    (((imm >> 12) & 1) << 31)
        | (((imm >> 5) & 0x3f) << 25)
        | (rs2 << 20)
        | (rs1 << 15)
        | (funct3 << 12)
        | (((imm >> 1) & 0xf) << 8)
        | (((imm >> 11) & 1) << 7)
        | BRANCH
}

fn addi(rd: u32, rs1: u32, imm: i32) -> u32 {
    i_type(imm, rs1, 0, rd, OP_IMM)
}

fn lui(rd: u32, imm20: u32) -> u32 {
    (imm20 << 12) | (rd << 7) | 0x37
}

fn csr_op(csr: u32, rs1: u32, funct3: u32, rd: u32) -> u32 {
    (csr << 20) | (rs1 << 15) | (funct3 << 12) | (rd << 7) | SYSTEM
}

fn machine(base: u32, words: &[u32]) -> (Cpu, Memory) {
    let mut mem = Memory::new();
    for (i, w) in words.iter().enumerate() {
        mem.store_u32(base + (i as u32) * 4, *w);
    }
    let mut cpu = Cpu::new();
    cpu.set_pc(base);
    (cpu, mem)
}

fn run_to_ebreak(words: &[u32]) -> (Cpu, Memory) {
    let (mut cpu, mut mem) = machine(0x1000, words);
    assert_eq!(cpu.run(&mut mem, 1000), Ok(StopReason::Ebreak));
    (cpu, mem)
}

#[test]
fn fresh_cpu_is_reset() {
    let cpu = Cpu::new();
    assert_eq!(cpu.pc(), 0);
    assert_eq!(cpu.cycle(), 0);
    assert_eq!(cpu.instret(), 0);
    for i in 0..32 {
        assert_eq!(cpu.reg(i), 0);
    }
    assert_eq!(cpu.csr().read(addr::MSCRATCH), 0);
    let other = Cpu::default();
    assert_eq!(other.pc(), 0);
    assert_eq!(other.cycle(), 0);
}

#[test]
fn register_register_alu() {
    let (cpu, _) = run_to_ebreak(&[
        addi(1, 0, 7),
        addi(2, 0, -3),
        r_type(0, 2, 1, 0, 3, OP),    // add  x3 = 4
        r_type(0x20, 2, 1, 0, 4, OP), // sub  x4 = 10
        r_type(0x20, 1, 2, 0, 5, OP), // sub  x5 = -10
        r_type(0, 2, 1, 4, 6, OP),    // xor
        r_type(0, 2, 1, 6, 7, OP),    // or
        r_type(0, 2, 1, 7, 8, OP),    // and
        r_type(0, 1, 2, 2, 9, OP),    // slt  -3 < 7 = 1
        r_type(0, 1, 2, 3, 10, OP),   // sltu 0xfffffffd < 7 = 0
        r_type(0, 2, 1, 2, 11, OP),   // slt  7 < -3 = 0
        r_type(0, 2, 1, 3, 12, OP),   // sltu 7 < 0xfffffffd = 1
        EBREAK,
    ]);
    assert_eq!(cpu.reg(3), 4);
    assert_eq!(cpu.reg(4), 10);
    assert_eq!(cpu.reg(5), (-10i32) as u32);
    assert_eq!(cpu.reg(6), 7 ^ 0xffff_fffd);
    assert_eq!(cpu.reg(7), 7 | 0xffff_fffd);
    assert_eq!(cpu.reg(8), 7 & 0xffff_fffd);
    assert_eq!(cpu.reg(9), 1);
    assert_eq!(cpu.reg(10), 0);
    assert_eq!(cpu.reg(11), 0);
    assert_eq!(cpu.reg(12), 1);
}

#[test]
fn addition_wraps_modulo_two_to_the_32() {
    let (cpu, _) = run_to_ebreak(&[
        addi(1, 0, -1),
        addi(2, 1, 2),             // 0xffffffff + 2 = 1
        r_type(0, 1, 1, 0, 3, OP), // 0xffffffff + 0xffffffff = 0xfffffffe
        EBREAK,
    ]);
    assert_eq!(cpu.reg(2), 1);
    assert_eq!(cpu.reg(3), 0xffff_fffe);
}

#[test]
fn immediate_alu_and_comparisons() {
    let (cpu, _) = run_to_ebreak(&[
        addi(1, 0, 5),
        i_type(-1, 1, 4, 2, OP_IMM),   // xori x2 = !5
        i_type(0x0f0, 1, 6, 3, OP_IMM), // ori
        i_type(-2, 1, 7, 4, OP_IMM),   // andi 5 & 0xfffffffe = 4
        i_type(6, 1, 2, 5, OP_IMM),    // slti 5 < 6 = 1
        i_type(-1, 1, 2, 6, OP_IMM),   // slti 5 < -1 = 0
        i_type(-1, 1, 3, 7, OP_IMM),   // sltiu 5 < 0xffffffff = 1
        i_type(5, 1, 3, 8, OP_IMM),    // sltiu 5 < 5 = 0
        EBREAK,
    ]);
    assert_eq!(cpu.reg(2), !5u32);
    assert_eq!(cpu.reg(3), 0xf5);
    assert_eq!(cpu.reg(4), 4);
    assert_eq!(cpu.reg(5), 1);
    assert_eq!(cpu.reg(6), 0);
    assert_eq!(cpu.reg(7), 1);
    assert_eq!(cpu.reg(8), 0);
}

#[test]
fn shifts_logical_and_arithmetic() {
    let (cpu, _) = run_to_ebreak(&[
        addi(1, 0, -16),                        // 0xfffffff0
        i_type(4, 1, 1, 2, OP_IMM),             // slli 4
        i_type(4, 1, 5, 3, OP_IMM),             // srli 4
        i_type(0x400 | 4, 1, 5, 4, OP_IMM),     // srai 4
        addi(5, 0, 36),                         // shift amount 36 acts as 4
        r_type(0, 5, 1, 1, 6, OP),              // sll
        r_type(0, 5, 1, 5, 7, OP),              // srl
        r_type(0x20, 5, 1, 5, 8, OP),           // sra
        i_type(31, 1, 1, 9, OP_IMM),            // slli 31
        EBREAK,
    ]);
    assert_eq!(cpu.reg(2), 0xffff_ff00);
    assert_eq!(cpu.reg(3), 0x0fff_ffff);
    assert_eq!(cpu.reg(4), 0xffff_ffff);
    assert_eq!(cpu.reg(6), 0xffff_ff00);
    assert_eq!(cpu.reg(7), 0x0fff_ffff);
    assert_eq!(cpu.reg(8), 0xffff_ffff);
    assert_eq!(cpu.reg(9), 0);
}

#[test]
fn multiply_high_words() {
    let (cpu, _) = run_to_ebreak(&[
        addi(1, 0, -1),            // 0xffffffff
        addi(2, 0, 2),
        r_type(1, 1, 1, 0, 3, OP), // mul    (-1)*(-1) low = 1
        r_type(1, 1, 1, 1, 4, OP), // mulh   (-1)*(-1) high = 0
        r_type(1, 1, 1, 3, 5, OP), // mulhu  0xffffffff^2 high = 0xfffffffe
        r_type(1, 2, 1, 2, 6, OP), // mulhsu (-1)*2 high = -1
        r_type(1, 1, 2, 2, 7, OP), // mulhsu 2*0xffffffff high = 1
        r_type(1, 2, 1, 1, 8, OP), // mulh   (-1)*2 high = -1
        r_type(1, 2, 1, 0, 9, OP), // mul    (-1)*2 low = -2
        EBREAK,
    ]);
    assert_eq!(cpu.reg(3), 1);
    assert_eq!(cpu.reg(4), 0);
    assert_eq!(cpu.reg(5), 0xffff_fffe);
    assert_eq!(cpu.reg(6), 0xffff_ffff);
    assert_eq!(cpu.reg(7), 1);
    assert_eq!(cpu.reg(8), 0xffff_ffff);
    assert_eq!(cpu.reg(9), 0xffff_fffe);
}

#[test]
fn division_rounds_toward_zero_and_never_traps() {
    let (cpu, _) = run_to_ebreak(&[
        addi(1, 0, -7),
        addi(2, 0, 2),
        r_type(1, 2, 1, 4, 3, OP), // div  -7 / 2 = -3
        r_type(1, 2, 1, 6, 4, OP), // rem  -7 % 2 = -1
        r_type(1, 1, 2, 4, 5, OP), // div  2 / -7 = 0
        r_type(1, 1, 2, 6, 6, OP), // rem  2 % -7 = 2
        r_type(1, 0, 1, 4, 7, OP), // div by zero = -1
        r_type(1, 0, 1, 6, 8, OP), // rem by zero = dividend
        r_type(1, 0, 2, 7, 9, OP), // remu by zero = dividend
        r_type(1, 2, 1, 5, 10, OP), // divu 0xfffffff9 / 2
        r_type(1, 2, 1, 7, 11, OP), // remu 0xfffffff9 % 2
        lui(12, 0x80000),           // i32::MIN
        addi(13, 0, -1),
        r_type(1, 13, 12, 4, 14, OP), // overflow: div = dividend
        r_type(1, 13, 12, 6, 15, OP), // overflow: rem = 0
        EBREAK,
    ]);
    assert_eq!(cpu.reg(3), (-3i32) as u32);
    assert_eq!(cpu.reg(4), (-1i32) as u32);
    assert_eq!(cpu.reg(5), 0);
    assert_eq!(cpu.reg(6), 2);
    assert_eq!(cpu.reg(7), u32::MAX);
    assert_eq!(cpu.reg(8), (-7i32) as u32);
    assert_eq!(cpu.reg(9), 2);
    assert_eq!(cpu.reg(10), 0x7fff_fffc);
    assert_eq!(cpu.reg(11), 1);
    assert_eq!(cpu.reg(14), 0x8000_0000);
    assert_eq!(cpu.reg(15), 0);
}

#[test]
fn loads_extend_and_stores_write_exact_bytes() {
    let (mut cpu, mut mem) = machine(
        0x1000,
        &[
            i_type(0, 0, 0, 1, LOAD),  // lb  x1, 0x100
            i_type(0, 0, 4, 2, LOAD),  // lbu x2
            i_type(0, 0, 1, 3, LOAD),  // lh  x3
            i_type(0, 0, 5, 4, LOAD),  // lhu x4
            i_type(0, 0, 2, 5, LOAD),  // lw  x5
            s_type(0x10, 5, 0, 0),     // sb x5, 0x10(x0)
            s_type(0x20, 5, 0, 1),     // sh x5, 0x20(x0)
            s_type(0x30, 5, 0, 2),     // sw x5, 0x30(x0)
            EBREAK,
        ],
    );
    mem.store_u32(0, 0x1234_8081);
    assert_eq!(cpu.run(&mut mem, 100), Ok(StopReason::Ebreak));
    assert_eq!(cpu.reg(1), 0xffff_ff81);
    assert_eq!(cpu.reg(2), 0x81);
    assert_eq!(cpu.reg(3), 0xffff_8081);
    assert_eq!(cpu.reg(4), 0x8081);
    assert_eq!(cpu.reg(5), 0x1234_8081);
    assert_eq!(mem.load_u32(0x10), 0x81);
    assert_eq!(mem.load_u32(0x20), 0x8081);
    assert_eq!(mem.load_u32(0x30), 0x1234_8081);
}

#[test]
fn upper_immediates_and_register_jumps() {
    let (mut cpu, mut mem) = machine(
        0x100,
        &[
            lui(1, 0x12345),          // 0x100
            0x0000_1117,              // 0x104: auipc x2, 1 -> 0x1104
            addi(3, 0, 0x115),        // 0x108
            i_type(0, 3, 0, 4, 0x67), // 0x10c: jalr x4, 0(x3) -> 0x114 (bit 0 cleared)
            0,                        // 0x110: skipped
            EBREAK,                   // 0x114
        ],
    );
    assert_eq!(cpu.run(&mut mem, 100), Ok(StopReason::Ebreak));
    assert_eq!(cpu.reg(1), 0x1234_5000);
    assert_eq!(cpu.reg(2), 0x1104);
    assert_eq!(cpu.reg(4), 0x110, "jalr links pc + 4");
    assert_eq!(cpu.pc(), 0x114, "jalr target has its low bit cleared");
}

#[test]
fn misaligned_register_jump_traps_without_linking() {
    let (mut cpu, mut mem) = machine(0x100, &[addi(3, 0, 0x106), i_type(0, 3, 0, 4, 0x67)]);
    assert_eq!(cpu.step(&mut mem), Ok(StepOutcome::Continue));
    assert_eq!(cpu.step(&mut mem), Err(Trap::InstructionAddressMisaligned(0x106)));
    assert_eq!(cpu.reg(4), 0);
    assert_eq!(cpu.pc(), 0x104);
}

#[test]
fn writes_to_x0_are_discarded() {
    let (cpu, _) = run_to_ebreak(&[addi(0, 0, 5), lui(0, 1), r_type(0, 0, 0, 0, 0, OP), EBREAK]);
    assert_eq!(cpu.reg(0), 0);
    assert_eq!(cpu.reg(32), 0);
}

#[test]
fn reserved_and_unknown_encodings_trap() {
    let cases = [
        0x0000_0000u32,                // opcode 0
        r_type(0x40, 2, 1, 0, 3, OP),  // reserved funct7
        r_type(0x20, 2, 1, 1, 3, OP),  // sub-style funct7 on sll
        i_type(0, 0, 3, 1, LOAD),      // ld is not RV32
        i_type(0, 0, 6, 1, LOAD),      // lwu is not RV32
        s_type(0, 1, 0, 3),            // sd is not RV32
        b_type(8, 0, 0, 2),            // branch funct3 2
        i_type(0x400 | 1, 1, 1, 2, OP_IMM), // slli with funct7 0x20
        csr_op(addr::MSCRATCH, 0, 4, 1),    // SYSTEM funct3 4
        i_type(0, 1, 0, 0, SYSTEM),    // ecall with rs1 != 0
        i_type(1, 1, 0, 0, SYSTEM),    // ebreak with rs1 != 0
        0x0010_00F3,                   // ebreak with rd != 0
    ];
    for instruction in cases {
        let (mut cpu, mut mem) = machine(0x5000, &[instruction]);
        assert_eq!(
            cpu.step(&mut mem),
            Err(Trap::IllegalInstruction(0x5000)),
            "encoding 0x{instruction:08x} must trap"
        );
    }
}

#[test]
fn unimplemented_system_instructions_are_unsupported() {
    for instruction in [0x3020_0073u32, 0x1050_0073] {
        // mret, wfi
        let (mut cpu, mut mem) = machine(0x5000, &[instruction]);
        assert_eq!(cpu.step(&mut mem), Err(Trap::Unsupported("system")));
        assert_eq!(cpu.pc(), 0x5000);
    }
}

#[test]
fn a_trapping_step_only_counts_a_cycle() {
    let (mut cpu, mut mem) = machine(0x5000, &[addi(1, 0, 9), 0x0000_0000]);
    assert_eq!(cpu.step(&mut mem), Ok(StepOutcome::Continue));
    assert_eq!(cpu.step(&mut mem), Err(Trap::IllegalInstruction(0x5004)));
    assert_eq!(cpu.pc(), 0x5004);
    assert_eq!(cpu.reg(1), 9);
    assert_eq!(cpu.cycle(), 2);
    assert_eq!(cpu.instret(), 1);
    assert_eq!(mem.load_u32(0x5000), addi(1, 0, 9));

    let mut misaligned = Cpu::new();
    let mut empty = Memory::new();
    misaligned.set_pc(2);
    assert_eq!(misaligned.step(&mut empty), Err(Trap::InstructionAddressMisaligned(2)));
    assert_eq!(misaligned.cycle(), 1);
    assert_eq!(misaligned.instret(), 0);
}

#[test]
fn ecall_stops_the_run_without_retiring() {
    let (mut cpu, mut mem) = machine(0x3000, &[addi(1, 0, 1), 0x0000_0073, addi(2, 0, 2)]);
    assert_eq!(cpu.run(&mut mem, 100), Ok(StopReason::Ecall));
    assert_eq!(cpu.pc(), 0x3004, "ecall leaves the pc on itself");
    assert_eq!(cpu.reg(1), 1);
    assert_eq!(cpu.reg(2), 0);
    assert_eq!(cpu.cycle(), 2);
    assert_eq!(cpu.instret(), 1);
}

#[test]
fn a_trap_ends_the_run() {
    let (mut cpu, mut mem) = machine(0x3000, &[addi(1, 0, 1), 0xffff_ffff]);
    assert_eq!(cpu.run(&mut mem, 100), Err(Trap::IllegalInstruction(0x3004)));
    assert_eq!(cpu.pc(), 0x3004);
}

#[test]
fn exhausting_the_budget_counts_every_step() {
    // jal x0, 0: an endless loop on itself.
    let (mut cpu, mut mem) = machine(0x7000, &[0x0000_006F]);
    assert_eq!(cpu.run(&mut mem, 5), Ok(StopReason::Limit));
    assert_eq!(cpu.cycle(), 5);
    assert_eq!(cpu.instret(), 5);
    assert_eq!(cpu.pc(), 0x7000);

    let (mut idle, mut idle_mem) = machine(0x7000, &[0x0000_006F]);
    assert_eq!(idle.run(&mut idle_mem, 0), Ok(StopReason::Limit));
    assert_eq!(idle.cycle(), 0);
    assert_eq!(idle.pc(), 0x7000);
}

#[test]
fn program_counter_wraps_and_stays_aligned() {
    let mut mem = Memory::new();
    mem.store_u32(0xFFFF_FFFC, addi(1, 0, 3));
    let mut cpu = Cpu::new();
    cpu.set_pc(0xFFFF_FFFC);
    assert_eq!(cpu.step(&mut mem), Ok(StepOutcome::Continue));
    assert_eq!(cpu.pc(), 0);
    assert_eq!(cpu.pc() % 4, 0);
}

#[test]
fn only_stores_change_memory() {
    let (mut cpu, mut mem) = machine(0x1000, &[i_type(0, 0, 2, 1, LOAD), addi(2, 1, 1), EBREAK]);
    mem.store_u32(0, 41);
    assert_eq!(cpu.run(&mut mem, 10), Ok(StopReason::Ebreak));
    assert_eq!(cpu.reg(2), 42);
    assert_eq!(mem.load_u32(0), 41);
    assert_eq!(mem.read_u8(4), 0);
}

#[test]
fn csr_read_modify_write() {
    let (cpu, _) = run_to_ebreak(&[
        addi(1, 0, 0x0f0),
        csr_op(addr::MSCRATCH, 1, 1, 2),    // csrrw  x2, mscratch, x1 -> x2 = 0
        csr_op(addr::MSCRATCH, 0, 2, 3),    // csrrs  x3, mscratch, x0 -> read 0xf0
        csr_op(addr::MSCRATCH, 0x0f, 6, 4), // csrrsi x4, mscratch, 0xf -> old 0xf0, now 0xff
        csr_op(addr::MSCRATCH, 0x03, 7, 5), // csrrci x5, mscratch, 3 -> old 0xff, now 0xfc
        csr_op(addr::MSCRATCH, 1, 3, 6),    // csrrc  x6, mscratch, x1 -> old 0xfc, now 0x0c
        csr_op(addr::MSCRATCH, 0x1f, 5, 7), // csrrwi x7, mscratch, 31 -> old 0x0c, now 31
        EBREAK,
    ]);
    assert_eq!(cpu.reg(2), 0);
    assert_eq!(cpu.reg(3), 0xf0);
    assert_eq!(cpu.reg(4), 0xf0);
    assert_eq!(cpu.reg(5), 0xff);
    assert_eq!(cpu.reg(6), 0xfc);
    assert_eq!(cpu.reg(7), 0x0c);
    assert_eq!(cpu.csr().read(addr::MSCRATCH), 31);
}

#[test]
fn read_only_csrs_reject_writes_but_allow_reads() {
    let writes = [
        csr_op(addr::CYCLE, 1, 1, 2),      // csrrw to cycle
        csr_op(addr::MVENDORID, 1, 5, 2),  // csrrwi to mvendorid
        csr_op(addr::INSTRET, 1, 2, 2),    // csrrs with nonzero rs1
    ];
    for instruction in writes {
        let (mut cpu, mut mem) = machine(0x4000, &[instruction]);
        assert_eq!(cpu.step(&mut mem), Err(Trap::IllegalInstruction(0x4000)));
        assert_eq!(cpu.reg(2), 0);
        assert_eq!(cpu.csr().read(addr::MVENDORID), 0);
    }
    let (cpu, _) = run_to_ebreak(&[
        csr_op(addr::MVENDORID, 0, 2, 2), // csrrs x2, mvendorid, x0
        csr_op(addr::CYCLEH, 0, 3, 3),    // csrrc x3, cycleh, x0
        csr_op(addr::INSTRETH, 0, 6, 4),  // csrrsi x4, instreth, 0
        EBREAK,
    ]);
    assert_eq!(cpu.reg(2), 0);
    assert_eq!(cpu.reg(3), 0);
    assert_eq!(cpu.reg(4), 0);
}

#[test]
fn counters_count_steps_and_retirements() {
    let (mut cpu, mut mem) = machine(
        0x4000,
        &[addi(1, 0, 1), csr_op(addr::CYCLE, 0, 2, 5), csr_op(addr::INSTRET, 0, 2, 6), EBREAK],
    );
    assert_eq!(cpu.run(&mut mem, 10), Ok(StopReason::Ebreak));
    assert_eq!(cpu.reg(5), 2, "the second step reads cycle 2");
    assert_eq!(cpu.reg(6), 2, "two instructions retired before the third");
    assert_eq!(cpu.cycle(), 4);
    assert_eq!(cpu.instret(), 3);
}

#[test]
fn unimplemented_extensions_are_unsupported() {
    let cases = [
        (0x0000_202Fu32, "atomics"),    // amoadd.w x0, x0, (x0)
        (0x1000_252F, "atomics"),       // lr.w x10, (x0)
        (0x0000_2007, "floating point"), // flw f0, 0(x0)
        (0x0000_2027, "floating point"), // fsw f0, 0(x0)
        (0x0000_0043, "floating point"), // fmadd.s
        (0x0000_0047, "floating point"), // fmsub.s
        (0x0000_004B, "floating point"), // fnmsub.s
        (0x0000_004F, "floating point"), // fnmadd.s
        (0x0000_0053, "floating point"), // fadd.s
        (0x0000_4501, "compressed"),    // c.li a0, 0
        (0x0000_8082, "compressed"),    // c.ret
    ];
    for (instruction, extension) in cases {
        let (mut cpu, mut mem) = machine(0x6000, &[instruction]);
        assert_eq!(
            cpu.step(&mut mem),
            Err(Trap::Unsupported(extension)),
            "encoding 0x{instruction:08x}"
        );
        assert_eq!(cpu.pc(), 0x6000);
        assert_eq!(cpu.instret(), 0);
    }
    // The all-zero 16-bit parcel is defined illegal, not compressed.
    let (mut cpu, mut mem) = machine(0x6000, &[0x0001_0000]);
    assert_eq!(cpu.step(&mut mem), Err(Trap::IllegalInstruction(0x6000)));
}

#[test]
fn execution_does_not_depend_on_the_counters() {
    let program = [addi(1, 0, 5), r_type(0, 1, 1, 0, 2, OP), EBREAK];
    let (mut fresh, mut fresh_mem) = machine(0x1000, &program);
    // The same program, reached after other work has advanced the counters.
    let (mut busy, mut busy_mem) = machine(0x0ff0, &[addi(3, 0, 1), addi(3, 3, 1), addi(3, 3, 1), addi(3, 0, 0)]);
    for (i, w) in program.iter().enumerate() {
        busy_mem.store_u32(0x1000 + (i as u32) * 4, *w);
    }
    assert_eq!(busy.run(&mut busy_mem, 4), Ok(StopReason::Limit));
    assert_eq!(busy.cycle(), 4);
    assert_eq!(fresh.run(&mut fresh_mem, 10), Ok(StopReason::Ebreak));
    assert_eq!(busy.run(&mut busy_mem, 10), Ok(StopReason::Ebreak));
    assert_eq!(fresh.pc(), busy.pc());
    for i in 1..3 {
        assert_eq!(fresh.reg(i), busy.reg(i));
    }
    assert_eq!(busy.reg(2), 10);
    assert_eq!(busy.cycle(), fresh.cycle() + 4);
}

#[test]
fn csr_reads_the_last_write() {
    let (cpu, _) = run_to_ebreak(&[
        csr_op(addr::MSCRATCH, 3, 5, 0), // csrrwi mscratch, 3
        csr_op(addr::MEPC, 9, 5, 0),     // csrrwi mepc, 9
        csr_op(addr::MSCRATCH, 7, 5, 0), // csrrwi mscratch, 7
        EBREAK,
    ]);
    assert_eq!(cpu.csr().read(addr::MSCRATCH), 7);
    assert_eq!(cpu.csr().read(addr::MEPC), 9);
    assert_eq!(cpu.csr().read(addr::MTVEC), 0);
}
