//! The driver's start-address argument.

use chips::cli::parse_addr;

#[test]
fn hexadecimal_addresses_parse() {
    assert_eq!(parse_addr(b"0x80000000"), Some(0x8000_0000));
    assert_eq!(parse_addr(b"0X10"), Some(0x10));
    assert_eq!(parse_addr(b"ff"), Some(0xff));
    assert_eq!(parse_addr(b"DeadBeef"), Some(0xdead_beef));
    assert_eq!(parse_addr(b"+1f"), Some(0x1f));
    assert_eq!(parse_addr(b"0x0x10"), Some(0x10));
    assert_eq!(parse_addr(b"00000000ffffffff"), Some(0xffff_ffff));
}

#[test]
fn malformed_addresses_are_rejected() {
    assert_eq!(parse_addr(b""), None);
    assert_eq!(parse_addr(b"0x"), None);
    assert_eq!(parse_addr(b"+"), None);
    assert_eq!(parse_addr(b"-1"), None);
    assert_eq!(parse_addr(b"0xg"), None);
    assert_eq!(parse_addr(b"12 "), None);
    assert_eq!(parse_addr(b"100000000"), None);
    assert_eq!(parse_addr(b"0X0x5"), None);
    assert_eq!(parse_addr(b"++1"), None);
}
