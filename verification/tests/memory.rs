//! The byte-addressable memory and the CSR store.

use chips::csr::{addr, Csr};
use chips::mem::Memory;

#[test]
fn unwritten_memory_reads_zero() {
    let mem = Memory::new();
    assert_eq!(mem.read_u8(0), 0);
    assert_eq!(mem.read_u8(0xFFFF_FFFF), 0);
    assert_eq!(mem.read_bytes(0x1234, 8), 0);
    assert_eq!(mem.load_u32(0x8000_0000), 0);
    let fresh = Memory::default();
    assert_eq!(fresh.read_u8(7), 0);
}

#[test]
fn byte_write_reads_back_and_leaves_neighbours() {
    let mut mem = Memory::new();
    mem.write_u8(10, 0xab);
    assert_eq!(mem.read_u8(10), 0xab);
    assert_eq!(mem.read_u8(9), 0);
    assert_eq!(mem.read_u8(11), 0);
    mem.write_u8(10, 0x01);
    assert_eq!(mem.read_u8(10), 0x01);
}

#[test]
fn multi_byte_accesses_are_little_endian() {
    let mut mem = Memory::new();
    mem.write_bytes(0x100, 8, 0x1122_3344_5566_7788);
    assert_eq!(mem.read_u8(0x100), 0x88);
    assert_eq!(mem.read_u8(0x101), 0x77);
    assert_eq!(mem.read_u8(0x107), 0x11);
    assert_eq!(mem.read_u8(0x108), 0);
    assert_eq!(mem.read_bytes(0x100, 8), 0x1122_3344_5566_7788);
    assert_eq!(mem.read_bytes(0x100, 4), 0x5566_7788);
    assert_eq!(mem.read_bytes(0x102, 2), 0x5566);
    assert_eq!(mem.read_bytes(0x100, 1), 0x88);
    assert_eq!(mem.read_bytes(0x100, 0), 0);
}

#[test]
fn partial_writes_ignore_high_bytes() {
    let mut mem = Memory::new();
    mem.write_bytes(0x200, 2, 0xdead_beef);
    assert_eq!(mem.read_bytes(0x200, 4), 0xbeef);
    assert_eq!(mem.read_u8(0x202), 0);
}

#[test]
fn word_store_then_load_gives_the_word_back() {
    let mut mem = Memory::new();
    mem.store_u32(0x40, 0xcafe_f00d);
    assert_eq!(mem.load_u32(0x40), 0xcafe_f00d);
    assert_eq!(mem.read_u8(0x40), 0x0d);
    assert_eq!(mem.read_u8(0x43), 0xca);
}

#[test]
fn accesses_wrap_around_the_address_space() {
    let mut mem = Memory::new();
    mem.store_u32(0xFFFF_FFFE, 0x0403_0201);
    assert_eq!(mem.read_u8(0xFFFF_FFFE), 0x01);
    assert_eq!(mem.read_u8(0xFFFF_FFFF), 0x02);
    assert_eq!(mem.read_u8(0), 0x03);
    assert_eq!(mem.read_u8(1), 0x04);
    assert_eq!(mem.load_u32(0xFFFF_FFFE), 0x0403_0201);
}

#[test]
fn loaded_image_reads_back_byte_by_byte() {
    let mut mem = Memory::new();
    mem.write_u8(0x1003, 0x55);
    mem.load_image(0x1000, &[1, 2, 3]);
    assert_eq!(mem.read_u8(0x1000), 1);
    assert_eq!(mem.read_u8(0x1001), 2);
    assert_eq!(mem.read_u8(0x1002), 3);
    assert_eq!(mem.read_u8(0x1003), 0x55, "bytes past the image keep their value");
    assert_eq!(mem.load_u32(0x1000), 0x5503_0201);

    let mut wrapped = Memory::new();
    wrapped.load_image(0xFFFF_FFFF, &[9, 8]);
    assert_eq!(wrapped.read_u8(0xFFFF_FFFF), 9);
    assert_eq!(wrapped.read_u8(0), 8);

    let mut empty = Memory::new();
    empty.load_image(0x10, &[]);
    assert_eq!(empty.read_u8(0x10), 0);
}

#[test]
fn csr_store_reads_back_writes_and_zero_elsewhere() {
    let mut csr = Csr::new();
    assert_eq!(csr.read(addr::MSCRATCH), 0);
    csr.write(addr::MSCRATCH, 0x1234_5678);
    assert_eq!(csr.read(addr::MSCRATCH), 0x1234_5678);
    assert_eq!(csr.read(addr::MEPC), 0);
    csr.write(addr::MSCRATCH, 7);
    assert_eq!(csr.read(addr::MSCRATCH), 7);
    let fresh = Csr::default();
    assert_eq!(fresh.read(addr::MSTATUS), 0);
}
