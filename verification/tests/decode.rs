//! Instruction decoding and register names.

use chips::isa::{decode, reg_name};

#[test]
fn register_fields_are_extracted() {
    // add x7, x5, x6
    let d = decode(0x1000, 0x0062_83B3);
    assert_eq!(d.pc, 0x1000);
    assert_eq!(d.raw, 0x0062_83B3);
    assert_eq!(d.opcode, 0x33);
    assert_eq!(d.rd, 7);
    assert_eq!(d.rs1, 5);
    assert_eq!(d.rs2, 6);
    assert_eq!(d.funct3, 0);
    assert_eq!(d.funct7, 0);
}

#[test]
fn all_ones_word_fields_fit_their_widths() {
    let d = decode(0, 0xFFFF_FFFF);
    assert_eq!(d.opcode, 0x7f);
    assert_eq!(d.rd, 31);
    assert_eq!(d.rs1, 31);
    assert_eq!(d.rs2, 31);
    assert_eq!(d.funct3, 7);
    assert_eq!(d.funct7, 0x7f);
    // An unknown opcode decodes with the I-type immediate.
    assert_eq!(d.imm, -1);
}

#[test]
fn i_type_immediate_is_sign_extended() {
    assert_eq!(decode(0, 0xFEC0_0293).imm, -20); // addi x5, x0, -20
    assert_eq!(decode(0, 0x7FF0_0293).imm, 2047); // addi x5, x0, 2047
    assert_eq!(decode(0, 0x8000_0293).imm, -2048); // addi x5, x0, -2048
}

#[test]
fn s_type_immediate_joins_its_two_fields() {
    assert_eq!(decode(0, 0x0070_2023).imm, 0); // sw x7, 0(x0)
    assert_eq!(decode(0, 0x0070_2423).imm, 8); // sw x7, 8(x0)
    assert_eq!(decode(0, 0xFE70_2E23).imm, -4); // sw x7, -4(x0)
}

#[test]
fn b_type_immediate_is_even_and_signed() {
    assert_eq!(decode(0, 0x0062_8463).imm, 8); // beq x5, x6, +8
    assert_eq!(decode(0, 0xFE62_8EE3).imm, -4); // beq x5, x6, -4
    assert_eq!(decode(0, 0x8000_0063).imm, -4096); // beq x0, x0, -4096
}

#[test]
fn u_type_immediate_fills_the_high_bits() {
    assert_eq!(decode(0, 0x1234_52B7).imm, 0x1234_5000); // lui x5, 0x12345
    assert_eq!(decode(0, 0xFFFF_F2B7).imm, -4096); // lui x5, 0xfffff
    assert_eq!(decode(0, 0x0000_1297).imm, 0x1000); // auipc x5, 1
}

#[test]
fn j_type_immediate_is_even_and_signed() {
    assert_eq!(decode(0, 0x0080_00EF).imm, 8); // jal x1, +8
    assert_eq!(decode(0, 0xFFDF_F0EF).imm, -4); // jal x1, -4
    assert_eq!(decode(0, 0x8000_006F).imm, -0x10_0000); // jal x0, -1 MiB
}

#[test]
fn register_names_follow_the_abi_and_wrap() {
    assert_eq!(reg_name(0), "zero");
    assert_eq!(reg_name(1), "ra");
    assert_eq!(reg_name(2), "sp");
    assert_eq!(reg_name(8), "s0");
    assert_eq!(reg_name(10), "a0");
    assert_eq!(reg_name(27), "s11");
    assert_eq!(reg_name(31), "t6");
    assert_eq!(reg_name(32), "zero");
    assert_eq!(reg_name(33), "ra");
}
